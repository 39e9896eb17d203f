//! The metadata region: a header and a fixed array of records.
//!
//! [`MetaRegion`] holds the content of one region as plain values and runs
//! the slot protocols of [`crate::protocol`] on it, one atomic operation
//! after the other.  Its view, [`RegionView`], is the mathematical state that
//! every contract of the pool is stated over.

use crate::discipline::{lemma_alloc_keeps_wf, lemma_free_keeps_wf, lemma_fresh_is_wf};
use crate::error::Error;
use crate::meta::{BufferMeta, HEADER_SIZE};
use crate::protocol::{
    alloc_first, alloc_next, alloc_start, alloc_then, free_next, free_start, free_then,
    AllocOutcome, AllocState, Cell, CellOp, CellReply, FreeOutcome, FreeState, MemOrder, Step,
    EMPTY,
};
use crate::text::{append_decimal, decimal};
use vstd::prelude::*;
use vstd::string::*;

verus! {

/// Constant that opens every metadata region.
pub const MAGIC: u32 = 0x584D454D;

/// Version of the region format that this crate writes and accepts.
pub const VERSION: u32 = 2;

/// The header of a metadata region, as plain values.
#[derive(Debug, Clone, Copy)]
pub struct MetaRegionHeader {
    /// Format constant, [`MAGIC`] in every well-formed region.
    pub magic: u32,
    /// Format version.
    pub version: u32,
    /// Number of slots in the region.
    pub capacity: u32,
    /// Bump cursor: the lowest index never handed out.
    pub next_id: u32,
    /// Number of slots currently allocated.
    pub allocated: u32,
    /// Head of the free list, [`EMPTY`] when no slot is free.
    pub free_head: u32,
    /// Number of threads blocked on a full pool.
    pub waiters: u32,
}

impl MetaRegionHeader {
    /// The header of a region of `capacity` slots as formatting leaves it:
    /// nothing handed out, nothing allocated, the free list empty, nobody
    /// waiting.
    pub open spec fn is_fresh(self, capacity: u32) -> bool {
        &&& self.magic == MAGIC
        &&& self.version == VERSION
        &&& self.capacity == capacity
        &&& self.next_id == 0
        &&& self.allocated == 0
        &&& self.free_head == EMPTY
        &&& self.waiters == 0
    }

    /// The header is one that this crate attaches to: it has the magic and
    /// the version that this crate writes.
    pub open spec fn accepted(self) -> bool {
        self.magic == MAGIC && self.version == VERSION
    }

    /// The text of the error that rejects a region of another version.
    pub open spec fn version_mismatch(found: u32) -> Seq<char> {
        "version mismatch: expected "@ + decimal(VERSION as nat) + ", got "@ + decimal(
            found as nat,
        )
    }

    /// The header that formatting writes for a region of `capacity` slots.
    pub fn fresh(capacity: u32) -> (h: MetaRegionHeader)
        ensures
            h.is_fresh(capacity),
    {
        MetaRegionHeader {
            magic: MAGIC,
            version: VERSION,
            capacity,
            next_id: 0,
            allocated: 0,
            free_head: EMPTY,
            waiters: 0,
        }
    }

    /// Detail of the error that rejects a region which does not hold the
    /// records that its header counts.
    pub open spec fn short() -> Seq<char> {
        "region does not hold its records"@
    }

    /// Checks that a region of `len` bytes holds the records that the
    /// header counts.
    pub fn check_length(&self, len: usize) -> (r: Result<(), Error>)
        ensures
            r is Ok <==> HEADER_SIZE + self.capacity * BufferMeta::SIZE <= len,
            r matches Err(e) ==> e.is_shared_memory(Self::short()),
    {
        if len < HEADER_SIZE || self.capacity as usize > (len - HEADER_SIZE) / BufferMeta::SIZE {
            Err(Error::shared_memory("region does not hold its records"))
        } else {
            Ok(())
        }
    }

    /// Checks the header of a region that is about to be attached to.
    ///
    /// The region is rejected, with `SharedMemory`, when its magic is not
    /// [`MAGIC`], and otherwise when its version is not [`VERSION`].
    /// Nothing else is looked at.
    pub fn validate(&self) -> (r: Result<(), Error>)
        ensures
            r is Ok <==> self.accepted(),
            r matches Err(e) ==> if self.magic != MAGIC {
                e.is_shared_memory("invalid magic number"@)
            } else {
                e.is_shared_memory(Self::version_mismatch(self.version))
            },
    {
        if self.magic != MAGIC {
            return Err(Error::shared_memory("invalid magic number"));
        }
        if self.version != VERSION {
            let mut detail = String::from_str("version mismatch: expected ");
            append_decimal(&mut detail, VERSION);
            detail.append(", got ");
            append_decimal(&mut detail, self.version);
            return Err(Error::SharedMemory(detail));
        }
        Ok(())
    }
}

/// The content of a metadata region.
pub struct RegionView {
    pub header: MetaRegionHeader,
    pub records: Seq<BufferMeta>,
}

impl BufferMeta {
    /// Every byte of the record is zero.
    pub open spec fn is_zeroed(self) -> bool {
        &&& self.id == 0
        &&& self.ref_count == 0
        &&& self.storage_type == 0
        &&& self.device_id == 0
        &&& self.dtype == 0
        &&& self.ndim == 0
        &&& self.size == 0
        &&& self.timestamp == 0
        &&& self.seq == 0
        &&& self.next_free == 0
        &&& forall|i: int| 0 <= i < self.shape@.len() ==> self.shape[i] == 0
        &&& forall|i: int| 0 <= i < self.strides@.len() ==> self.strides[i] == 0
        &&& forall|i: int| 0 <= i < self.content_type@.len() ==> self.content_type[i] == 0
        &&& forall|i: int| 0 <= i < self.producer@.len() ==> self.producer[i] == 0
        &&& forall|i: int| 0 <= i < self.cuda_ipc_handle@.len() ==> self.cuda_ipc_handle[i] == 0
    }
}

impl RegionView {
    /// The region holds as many records as its header counts.
    pub open spec fn structural(self) -> bool {
        self.records.len() == self.header.capacity
    }

    /// The region as `create` leaves it: the header formatted for `capacity`
    /// slots, nothing allocated, the free list empty, every record zero.
    pub open spec fn is_fresh(self, capacity: u32) -> bool {
        &&& self.header.is_fresh(capacity)
        &&& self.records.len() == capacity
        &&& forall|i: int| 0 <= i < capacity ==> (#[trigger] self.records[i]).is_zeroed()
    }

    /// The cell names a word of this region.
    pub open spec fn valid(self, cell: Cell) -> bool {
        cell matches Cell::NextFree(i) ==> i < self.header.capacity
    }

    /// What the cell holds.
    pub open spec fn cell(self, cell: Cell) -> u32 {
        match cell {
            Cell::NextId => self.header.next_id,
            Cell::Allocated => self.header.allocated,
            Cell::FreeHead => self.header.free_head,
            Cell::NextFree(i) => self.records[i as int].next_free,
        }
    }

    /// The region with `value` written to the cell and nothing else changed.
    pub open spec fn with_cell(self, cell: Cell, value: u32) -> RegionView {
        match cell {
            Cell::NextId => RegionView {
                header: MetaRegionHeader { next_id: value, ..self.header },
                ..self
            },
            Cell::Allocated => RegionView {
                header: MetaRegionHeader { allocated: value, ..self.header },
                ..self
            },
            Cell::FreeHead => RegionView {
                header: MetaRegionHeader { free_head: value, ..self.header },
                ..self
            },
            Cell::NextFree(i) => RegionView {
                records: self.records.update(
                    i as int,
                    BufferMeta { next_free: value, ..self.records[i as int] },
                ),
                ..self
            },
        }
    }

    /// The region with record `index` replaced.
    pub open spec fn with_record(self, index: u32, record: BufferMeta) -> RegionView {
        RegionView { records: self.records.update(index as int, record), ..self }
    }

    /// The region after one atomic operation that found it as it is.
    pub open spec fn after(self, op: CellOp) -> RegionView {
        match op {
            CellOp::Load { .. } => self,
            CellOp::Store { cell, value, .. } => self.with_cell(cell, value),
            CellOp::CompareExchange { cell, current, new, .. } => if self.cell(cell) == current {
                self.with_cell(cell, new)
            } else {
                self
            },
            CellOp::FetchAdd { cell, value, .. } => self.with_cell(
                cell,
                self.cell(cell).wrapping_add(value),
            ),
            CellOp::FetchSub { cell, value, .. } => self.with_cell(
                cell,
                self.cell(cell).wrapping_sub(value),
            ),
        }
    }

    /// What one atomic operation returns when it finds the region as it is.
    pub open spec fn reply(self, op: CellOp) -> CellReply {
        match op {
            CellOp::Load { cell, .. } => CellReply { done: true, value: self.cell(cell) },
            CellOp::Store { value, .. } => CellReply { done: true, value },
            CellOp::CompareExchange { cell, current, .. } => CellReply {
                done: self.cell(cell) == current,
                value: self.cell(cell),
            },
            CellOp::FetchAdd { cell, .. } => CellReply { done: true, value: self.cell(cell) },
            CellOp::FetchSub { cell, .. } => CellReply { done: true, value: self.cell(cell) },
        }
    }

    /// How an allocation ends that no other party interleaves with: the head
    /// of the free list if there is one, else the bump cursor if it is below
    /// the capacity, else the region is full.
    pub open spec fn alloc_outcome(self) -> AllocOutcome {
        let h = self.header;
        if h.free_head != EMPTY {
            if h.free_head >= h.capacity {
                AllocOutcome::NotFound(h.free_head)
            } else {
                AllocOutcome::Slot(h.free_head)
            }
        } else if h.next_id >= h.capacity {
            AllocOutcome::Full
        } else {
            AllocOutcome::Slot(h.next_id)
        }
    }

    /// The region after such an allocation: a popped slot's link becomes the
    /// head of the free list, a bumped cursor advances by one, the allocation
    /// count rises by one; a failed allocation changes nothing.
    pub open spec fn after_alloc(self) -> RegionView {
        let h = self.header;
        if h.free_head != EMPTY {
            if h.free_head >= h.capacity {
                self
            } else {
                RegionView {
                    header: MetaRegionHeader {
                        free_head: self.records[h.free_head as int].next_free,
                        allocated: h.allocated.wrapping_add(1),
                        ..h
                    },
                    ..self
                }
            }
        } else if h.next_id >= h.capacity {
            self
        } else {
            RegionView {
                header: MetaRegionHeader {
                    next_id: (h.next_id + 1) as u32,
                    allocated: h.allocated.wrapping_add(1),
                    ..h
                },
                ..self
            }
        }
    }

    /// How the release of slot `index` ends that no other party interleaves
    /// with.
    pub open spec fn free_outcome(self, index: u32) -> FreeOutcome {
        if index >= self.header.capacity {
            FreeOutcome::NotFound(index)
        } else {
            FreeOutcome::Freed
        }
    }

    /// The region after such a release: the slot links to the old head and
    /// is the new head, the allocation count falls by one.
    pub open spec fn after_free(self, index: u32) -> RegionView {
        let h = self.header;
        if index >= h.capacity {
            self
        } else {
            RegionView {
                header: MetaRegionHeader {
                    free_head: index,
                    allocated: h.allocated.wrapping_sub(1),
                    ..h
                },
                records: self.records.update(
                    index as int,
                    BufferMeta { next_free: h.free_head, ..self.records[index as int] },
                ),
            }
        }
    }
}

/// A capacity whose region can be laid out: the count fits the header's
/// 32-bit field and the size in bytes fits the address space.
pub open spec fn capacity_fits(capacity: usize) -> bool {
    capacity <= u32::MAX && HEADER_SIZE + capacity * BufferMeta::SIZE <= usize::MAX
}

/// The metadata region of a pool.
#[derive(Debug)]
pub struct MetaRegion {
    name: String,
    capacity: usize,
    header: MetaRegionHeader,
    records: Vec<BufferMeta>,
}

impl View for MetaRegion {
    type V = RegionView;

    closed spec fn view(&self) -> RegionView {
        RegionView { header: self.header, records: self.records@ }
    }
}

impl MetaRegion {
    /// The name the region is shared under.
    pub closed spec fn spec_name(&self) -> Seq<char> {
        self.name@
    }

    /// The capacity this handle was created or opened with.
    pub closed spec fn spec_capacity(&self) -> nat {
        self.capacity as nat
    }

    /// The handle agrees with the region: the region holds as many records
    /// as its header counts, and the handle knows that count.
    pub open spec fn inv(&self) -> bool {
        &&& self@.structural()
        &&& self.spec_capacity() == self@.header.capacity
    }

    /// Size in bytes of a region of `capacity` slots: the header and the
    /// records behind it.
    ///
    /// Fails, with `SharedMemory`, exactly when the capacity cannot be laid
    /// out.
    pub fn calc_size(capacity: usize) -> (r: Result<usize, Error>)
        ensures
            match r {
                Ok(size) => capacity_fits(capacity) && size == HEADER_SIZE + capacity
                    * BufferMeta::SIZE,
                Err(e) => !capacity_fits(capacity) && e.is_shared_memory(
                    "capacity out of range"@,
                ),
            },
    {
        if capacity > u32::MAX as usize || capacity > (usize::MAX - HEADER_SIZE)
            / BufferMeta::SIZE {
            Err(Error::shared_memory("capacity out of range"))
        } else {
            Ok(HEADER_SIZE + capacity * BufferMeta::SIZE)
        }
    }

    /// Formats a new region of `capacity` slots under `name`.
    ///
    /// Fails, with `SharedMemory`, exactly when the capacity cannot be laid
    /// out.
    pub fn create(name: &str, capacity: usize) -> (r: Result<MetaRegion, Error>)
        ensures
            match r {
                Ok(region) => {
                    &&& capacity_fits(capacity)
                    &&& region.inv()
                    &&& region.spec_name() == name@
                    &&& region@.is_fresh(capacity as u32)
                    &&& region@.wf()
                },
                Err(e) => !capacity_fits(capacity) && e.is_shared_memory(
                    "capacity out of range"@,
                ),
            },
    {
        match Self::calc_size(capacity) {
            Ok(_) => {},
            Err(e) => {
                return Err(e);
            },
        }
        let mut records: Vec<BufferMeta> = Vec::new();
        let mut i: usize = 0;
        while i < capacity
            invariant
                i <= capacity,
                records@.len() == i,
                forall|k: int| 0 <= k < i ==> (#[trigger] records@[k]).is_zeroed(),
            decreases capacity - i,
        {
            records.push(BufferMeta::zeroed());
            i += 1;
        }
        let header = MetaRegionHeader::fresh(capacity as u32);
        let region = MetaRegion { name: String::from_str(name), capacity, header, records };
        proof {
            lemma_fresh_is_wf(region@, capacity as u32);
        }
        Ok(region)
    }

    /// Attaches to an existing region whose content was found to be `header`
    /// and `records`.
    ///
    /// Fails, with `SharedMemory`, when the header is not accepted, with the
    /// error of [`MetaRegionHeader::validate`], and otherwise when the
    /// records are not as many as the header counts.  The capacity is taken
    /// from the header.
    pub fn open(name: &str, header: MetaRegionHeader, records: Vec<BufferMeta>) -> (r: Result<
        MetaRegion,
        Error,
    >)
        ensures
            r is Ok <==> header.accepted() && records@.len() == header.capacity,
            r matches Ok(region) ==> {
                &&& region.inv()
                &&& region.spec_name() == name@
                &&& region@ == (RegionView { header, records: records@ })
            },
            r matches Err(e) ==> if header.magic != MAGIC {
                e.is_shared_memory("invalid magic number"@)
            } else if header.version != VERSION {
                e.is_shared_memory(MetaRegionHeader::version_mismatch(header.version))
            } else {
                e.is_shared_memory(MetaRegionHeader::short())
            },
    {
        match header.validate() {
            Ok(()) => {},
            Err(e) => {
                return Err(e);
            },
        }
        let capacity = records.len();
        if capacity > u32::MAX as usize || capacity as u32 != header.capacity {
            return Err(Error::shared_memory("region does not hold its records"));
        }
        Ok(MetaRegion { name: String::from_str(name), capacity, header, records })
    }

    /// The name the region is shared under.
    pub fn name(&self) -> (n: &str)
        ensures
            n@ == self.spec_name(),
    {
        self.name.as_str()
    }

    /// Number of slots in the region.
    pub fn capacity(&self) -> (c: usize)
        ensures
            c == self.spec_capacity(),
    {
        self.capacity
    }

    /// The header of the region as it stands.
    pub fn header(&self) -> (h: MetaRegionHeader)
        ensures
            h == self@.header,
    {
        self.header
    }

    /// A copy of the records of the region as they stand.
    pub fn records(&self) -> (copy: Vec<BufferMeta>)
        ensures
            copy@ == self@.records,
    {
        let mut copy: Vec<BufferMeta> = Vec::new();
        let n = self.records.len();
        let mut i: usize = 0;
        while i < n
            invariant
                n == self.records@.len(),
                i <= n,
                copy@ == self.records@.subrange(0, i as int),
            decreases n - i,
        {
            copy.push(self.records[i]);
            assert(copy@ =~= self.records@.subrange(0, i + 1));
            i += 1;
        }
        assert(copy@ =~= self.records@);
        copy
    }

    /// The record of slot `index`, or `BufferNotFound` when the index is not
    /// below the capacity.
    pub fn get(&self, index: u32) -> (r: Result<&BufferMeta, Error>)
        requires
            self.inv(),
        ensures
            match r {
                Ok(meta) => index < self@.header.capacity && *meta == self@.records[index as int],
                Err(e) => index >= self@.header.capacity && e == Error::BufferNotFound(index),
            },
    {
        if index as usize >= self.capacity {
            return Err(Error::BufferNotFound(index));
        }
        Ok(&self.records[index as usize])
    }

    /// The record of slot `index` for writing, or `BufferNotFound` when the
    /// index is not below the capacity.
    ///
    /// Whatever the caller leaves in the record is the record afterwards;
    /// the rest of the region stays as it was.
    pub fn get_mut(&mut self, index: u32) -> (r: Result<&mut BufferMeta, Error>)
        requires
            old(self).inv(),
        ensures
            match r {
                Ok(meta) => {
                    &&& index < old(self)@.header.capacity
                    &&& *meta == old(self)@.records[index as int]
                    &&& final(self)@ == old(self)@.with_record(index, *final(meta))
                    &&& final(self).inv()
                    &&& final(self).spec_name() == old(self).spec_name()
                },
                Err(e) => {
                    &&& index >= old(self)@.header.capacity
                    &&& e == Error::BufferNotFound(index)
                    &&& *final(self) == *old(self)
                },
            },
    {
        if index as usize >= self.capacity {
            return Err(Error::BufferNotFound(index));
        }
        Ok(&mut self.records[index as usize])
    }

    /// The record of a slot that the region has.
    pub fn record(&self, index: u32) -> (meta: &BufferMeta)
        requires
            self.inv(),
            index < self@.header.capacity,
        ensures
            *meta == self@.records[index as int],
    {
        &self.records[index as usize]
    }

    /// The record of a slot that the region has, for writing.
    pub fn record_mut(&mut self, index: u32) -> (meta: &mut BufferMeta)
        requires
            old(self).inv(),
            index < old(self)@.header.capacity,
        ensures
            *meta == old(self)@.records[index as int],
            final(self)@ == old(self)@.with_record(index, *final(meta)),
            final(self).inv(),
            final(self).spec_name() == old(self).spec_name(),
    {
        &mut self.records[index as usize]
    }

    fn read_cell(&self, cell: Cell) -> (v: u32)
        requires
            self.inv(),
            self@.valid(cell),
        ensures
            v == self@.cell(cell),
    {
        match cell {
            Cell::NextId => self.header.next_id,
            Cell::Allocated => self.header.allocated,
            Cell::FreeHead => self.header.free_head,
            Cell::NextFree(i) => self.records[i as usize].next_free,
        }
    }

    fn write_cell(&mut self, cell: Cell, value: u32)
        requires
            old(self).inv(),
            old(self)@.valid(cell),
        ensures
            final(self).inv(),
            final(self)@ == old(self)@.with_cell(cell, value),
            final(self).spec_name() == old(self).spec_name(),
    {
        match cell {
            Cell::NextId => {
                self.header.next_id = value;
            },
            Cell::Allocated => {
                self.header.allocated = value;
            },
            Cell::FreeHead => {
                self.header.free_head = value;
            },
            Cell::NextFree(i) => {
                let mut record = self.records[i as usize];
                record.next_free = value;
                self.records.set(i as usize, record);
            },
        }
    }

    /// Performs one atomic operation on a word that the region has.
    pub fn apply(&mut self, op: CellOp) -> (reply: CellReply)
        requires
            old(self).inv(),
            old(self)@.valid(op.target()),
        ensures
            final(self).inv(),
            final(self).spec_name() == old(self).spec_name(),
            final(self)@ == old(self)@.after(op),
            reply == old(self)@.reply(op),
    {
        let cell = op.cell();
        let found = self.read_cell(cell);
        match op {
            CellOp::Load { .. } => CellReply { done: true, value: found },
            CellOp::Store { value, .. } => {
                self.write_cell(cell, value);
                CellReply { done: true, value }
            },
            CellOp::CompareExchange { current, new, .. } => {
                if found == current {
                    self.write_cell(cell, new);
                    CellReply { done: true, value: found }
                } else {
                    CellReply { done: false, value: found }
                }
            },
            CellOp::FetchAdd { value, .. } => {
                self.write_cell(cell, found.wrapping_add(value));
                CellReply { done: true, value: found }
            },
            CellOp::FetchSub { value, .. } => {
                self.write_cell(cell, found.wrapping_sub(value));
                CellReply { done: true, value: found }
            },
        }
    }

    /// Allocates a slot and returns its index.
    ///
    /// The allocation protocol is run to its end on this region: a free slot
    /// is popped from the free list if there is one, else the bump cursor
    /// hands out the next index, else the region is full and the cursor is
    /// left where it was.
    pub fn allocate(&mut self) -> (r: Result<u32, Error>)
        requires
            old(self).inv(),
        ensures
            final(self).inv(),
            final(self).spec_name() == old(self).spec_name(),
            final(self)@ == old(self)@.after_alloc(),
            old(self)@.alloc_outcome().yields(r),
            old(self)@.wf() ==> final(self)@.wf(),
    {
        let ghost start = self@;
        let capacity = self.header.capacity;
        let mut step = alloc_start();
        loop
            invariant
                self.inv(),
                self.spec_name() == old(self).spec_name(),
                start == old(self)@,
                start.structural(),
                capacity == start.header.capacity,
                alloc_progress(start, self@, step),
            decreases alloc_rank(step),
        {
            match step {
                Step::Done(outcome) => {
                    proof {
                        if start.wf() {
                            lemma_alloc_keeps_wf(start);
                        }
                    }
                    return outcome.into_result();
                },
                Step::Run { state, op } => {
                    proof {
                        lemma_alloc_step(start, self@, state, op);
                    }
                    let reply = self.apply(op);
                    step = alloc_next(state, reply, capacity);
                },
            }
        }
    }

    /// Puts slot `index` on the free list.
    ///
    /// The index is checked first: one that is not below the capacity fails
    /// with `BufferNotFound` and changes nothing.  Otherwise the release
    /// protocol is run to its end on this region.  The region stays well
    /// formed when the slot held a live allocation; releasing a slot that is
    /// free already ties the free list into a knot.
    pub fn free(&mut self, index: u32) -> (r: Result<(), Error>)
        requires
            old(self).inv(),
        ensures
            final(self).inv(),
            final(self).spec_name() == old(self).spec_name(),
            final(self)@ == old(self)@.after_free(index),
            old(self)@.free_outcome(index).yields(r),
            old(self)@.wf() && old(self)@.is_live(index) ==> final(self)@.wf(),
    {
        let ghost start = self@;
        let capacity = self.header.capacity;
        let mut step = free_start(index, capacity);
        loop
            invariant
                self.inv(),
                self.spec_name() == old(self).spec_name(),
                start == old(self)@,
                start.structural(),
                capacity == start.header.capacity,
                free_progress(start, self@, index, step),
            decreases free_rank(step),
        {
            match step {
                Step::Done(outcome) => {
                    proof {
                        if start.wf() && start.is_live(index) {
                            lemma_free_keeps_wf(start, index);
                        }
                    }
                    return outcome.into_result();
                },
                Step::Run { state, op } => {
                    proof {
                        lemma_free_step(start, self@, index, state, op);
                    }
                    let reply = self.apply(op);
                    step = free_next(state, reply, index);
                },
            }
        }
    }
}

/// How far an allocation that started in `start` has come when the region
/// is `now` and `step` is next, as long as no other party touches the region.
pub open spec fn alloc_progress(start: RegionView, now: RegionView, step: Step<AllocState, AllocOutcome>) -> bool {
    let h = start.header;
    match step {
        Step::Done(outcome) => now == start.after_alloc() && outcome == start.alloc_outcome(),
        Step::Run { state, op } => match state {
            AllocState::Head => now == start && step == alloc_first(),
            AllocState::Next { head } => {
                &&& now == start
                &&& head == h.free_head
                &&& head != EMPTY
                &&& head < h.capacity
                &&& step == alloc_then(AllocState::Head, start.reply(alloc_first()->op), h.capacity)
            },
            AllocState::Swing { head } => {
                &&& now == start
                &&& head == h.free_head
                &&& head != EMPTY
                &&& head < h.capacity
                &&& op == CellOp::CompareExchange {
                    cell: Cell::FreeHead,
                    current: head,
                    new: start.records[head as int].next_free,
                    success: MemOrder::AcqRel,
                    failure: MemOrder::Acquire,
                }
            },
            AllocState::Bump => {
                &&& now == start
                &&& h.free_head == EMPTY
                &&& op == CellOp::FetchAdd { cell: Cell::NextId, value: 1, order: MemOrder::SeqCst }
            },
            AllocState::Undo => {
                &&& h.free_head == EMPTY
                &&& h.next_id >= h.capacity
                &&& now == start.with_cell(Cell::NextId, h.next_id.wrapping_add(1))
                &&& op == CellOp::FetchSub { cell: Cell::NextId, value: 1, order: MemOrder::SeqCst }
            },
            AllocState::Count { index } => {
                &&& start.alloc_outcome() == AllocOutcome::Slot(index)
                &&& now.header.allocated == h.allocated
                &&& now.with_cell(Cell::Allocated, h.allocated.wrapping_add(1))
                    == start.after_alloc()
                &&& op == CellOp::FetchAdd {
                    cell: Cell::Allocated,
                    value: 1,
                    order: MemOrder::SeqCst,
                }
            },
        },
    }
}

/// Upper bound on the operations an allocation still has to perform when no
/// exchange is lost.
pub open spec fn alloc_rank(step: Step<AllocState, AllocOutcome>) -> nat {
    match step {
        Step::Done(_) => 0,
        Step::Run { state, .. } => match state {
            AllocState::Head => 4,
            AllocState::Next { .. } => 3,
            AllocState::Swing { .. } => 2,
            AllocState::Bump => 2,
            AllocState::Undo => 1,
            AllocState::Count { .. } => 1,
        },
    }
}

/// How far the release of slot `index` that started in `start` has come
/// when the region is `now` and `step` is next, as long as no other party
/// touches the region.
pub open spec fn free_progress(start: RegionView, now: RegionView, index: u32, step: Step<FreeState, FreeOutcome>) -> bool {
    let h = start.header;
    let linked = start.with_cell(Cell::NextFree(index), h.free_head);
    match step {
        Step::Done(outcome) => now == start.after_free(index) && outcome == start.free_outcome(
            index,
        ),
        Step::Run { state, op } => index < h.capacity && match state {
            FreeState::Head => now == start && op == CellOp::Load {
                cell: Cell::FreeHead,
                order: MemOrder::Acquire,
            },
            FreeState::Link { head } => {
                &&& now == start
                &&& head == h.free_head
                &&& op == CellOp::Store {
                    cell: Cell::NextFree(index),
                    value: head,
                    order: MemOrder::Release,
                }
            },
            FreeState::Swing => {
                &&& now == linked
                &&& op == CellOp::CompareExchange {
                    cell: Cell::FreeHead,
                    current: h.free_head,
                    new: index,
                    success: MemOrder::AcqRel,
                    failure: MemOrder::Acquire,
                }
            },
            FreeState::Count => {
                &&& now == linked.with_cell(Cell::FreeHead, index)
                &&& op == CellOp::FetchSub {
                    cell: Cell::Allocated,
                    value: 1,
                    order: MemOrder::SeqCst,
                }
            },
        },
    }
}

/// Upper bound on the operations a release still has to perform when no
/// exchange is lost.
pub open spec fn free_rank(step: Step<FreeState, FreeOutcome>) -> nat {
    match step {
        Step::Done(_) => 0,
        Step::Run { state, .. } => match state {
            FreeState::Head => 4,
            FreeState::Link { .. } => 3,
            FreeState::Swing => 2,
            FreeState::Count => 1,
        },
    }
}

/// One operation carries an allocation forward: the word it works on is in
/// the region, and once it is performed the allocation stands at the next
/// step, which is closer to the end.
pub proof fn lemma_alloc_step(start: RegionView, now: RegionView, state: AllocState, op: CellOp)
    requires
        start.structural(),
        alloc_progress(start, now, Step::Run { state, op }),
    ensures
        now.valid(op.target()),
        alloc_progress(
            start,
            now.after(op),
            alloc_then(state, now.reply(op), start.header.capacity),
        ),
        alloc_rank(alloc_then(state, now.reply(op), start.header.capacity)) < alloc_rank(
            Step::Run { state, op },
        ),
{
}

/// One operation carries a release forward: the word it works on is in the
/// region, and once it is performed the release stands at the next step,
/// which is closer to the end.
pub proof fn lemma_free_step(
    start: RegionView,
    now: RegionView,
    index: u32,
    state: FreeState,
    op: CellOp,
)
    requires
        start.structural(),
        free_progress(start, now, index, Step::Run { state, op }),
    ensures
        now.valid(op.target()),
        free_progress(start, now.after(op), index, free_then(state, now.reply(op), index)),
        free_rank(free_then(state, now.reply(op), index)) < free_rank(Step::Run { state, op }),
{
}

} // verus!
