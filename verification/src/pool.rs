//! The buffer pool: slots, reference counts and handles.
//!
//! [`BufferPool`] composes the metadata region with the naming of the data
//! regions and the lifecycle of handles.  Every operation states what it does
//! to the region's content, [`RegionView`], and which handle it returns.  The
//! backing of a buffer appears here as a descriptor: creating, opening and
//! importing the memory itself is the work of the binding, and where that
//! work fails the binding stops and hands its error on.

use crate::buffer::BufferData;
use crate::cuda::{CudaBuffer, CudaIpcHandle};
use crate::discipline::{
    lemma_acquire_keeps_wf, lemma_free_keeps_wf, lemma_preallocate_cuda_keeps_wf,
    lemma_preallocate_keeps_wf, lemma_ref_count_keeps_wf, lemma_try_release_keeps_wf,
};
use crate::error::Error;
use crate::guard::BufferGuard;
use crate::lifecycle::{
    acquire_next, acquire_start, buffer_name, buffer_region_name, count_next, count_start,
    device_backing, fresh_handle, get_next, get_start, host_backing, preallocate_next,
    preallocate_start, reclaim_next, reclaim_start, AcquireState, Action, CountOp, Event,
    GetState, Move, ReclaimState, Request, Warm,
};
use crate::meta::BufferMeta;
use crate::meta_region::{
    alloc_progress, alloc_rank, capacity_fits, free_progress, free_rank, lemma_alloc_step,
    lemma_free_step, MetaRegion, MetaRegionHeader, RegionView, MAGIC, VERSION,
};
use crate::protocol::{AllocOutcome, Step, EMPTY};
use crate::shm::SharedMemory;
use crate::storage::{AccessMode, StorageType};
use crate::text::contains;
use vstd::prelude::*;
use vstd::string::*;

verus! {

/// Capacity of a pool created without one.
pub const DEFAULT_CAPACITY: usize = 1024;

/// Milliseconds a blocking acquisition sleeps between two attempts.
pub const RETRY_INTERVAL_MS: u64 = 1;

/// Name of the metadata region of the pool called `pool`.
pub open spec fn meta_region_name(pool: Seq<char>) -> Seq<char> {
    pool + "_meta"@
}

/// Name of the metadata region of the pool called `pool`.
pub fn meta_name(pool: &str) -> (n: String)
    ensures
        n@ == meta_region_name(pool@),
{
    String::from_str(pool).concat("_meta")
}

impl RegionView {
    /// The reference count of slot `index`.
    pub open spec fn ref_count(self, index: u32) -> i32 {
        self.records[index as int].ref_count
    }

    /// The region with the reference count of slot `index` set to `count`.
    pub open spec fn with_ref_count(self, index: u32, count: i32) -> RegionView {
        self.with_record(index, BufferMeta { ref_count: count, ..self.records[index as int] })
    }

    /// The region after one reference to slot `index` was added.
    pub open spec fn after_add_ref(self, index: u32) -> RegionView {
        self.with_ref_count(index, self.ref_count(index).wrapping_add(1))
    }

    /// The region after one reference to slot `index` was released.
    pub open spec fn after_release(self, index: u32) -> RegionView {
        self.with_ref_count(index, self.ref_count(index).wrapping_sub(1))
    }

    /// The record of slot `index` as an acquisition writes it over `before`:
    /// the slot's own index, one reference, the storage kind, the device and
    /// the size; the hints, labels, handle and link stay as they were.
    pub open spec fn new_record(
        before: BufferMeta,
        index: u32,
        kind: StorageType,
        device: u8,
        size: u64,
    ) -> BufferMeta {
        BufferMeta {
            id: index,
            ref_count: 1,
            storage_type: kind.code(),
            device_id: device,
            size: size,
            ..before
        }
    }

    /// The region after the acquisition of a host buffer of `size` bytes: a
    /// slot is allocated and its record written; without a slot nothing
    /// changes.
    pub open spec fn after_acquire_cpu(self, size: u64) -> RegionView {
        match self.alloc_outcome() {
            AllocOutcome::Slot(index) => self.after_alloc().with_record(
                index,
                Self::new_record(self.records[index as int], index, StorageType::Cpu, 0, size),
            ),
            _ => self.after_alloc(),
        }
    }

    /// The region after the acquisition of a device buffer of `size` bytes
    /// on `device`, shared as `handle`: as for a host buffer, and the handle
    /// is copied into the record byte for byte.
    pub open spec fn after_acquire_cuda(
        self,
        size: u64,
        device: u8,
        handle: CudaIpcHandle,
    ) -> RegionView {
        match self.alloc_outcome() {
            AllocOutcome::Slot(index) => self.after_alloc().with_record(
                index,
                BufferMeta {
                    cuda_ipc_handle: handle.reserved,
                    ..Self::new_record(
                        self.records[index as int],
                        index,
                        StorageType::Cuda,
                        device,
                        size,
                    )
                },
            ),
            _ => self.after_alloc(),
        }
    }

    /// The region after `n` references to slot `index` were released, one
    /// after the other.
    pub open spec fn after_releases(self, index: u32, n: nat) -> RegionView
        decreases n,
    {
        if n == 0 {
            self
        } else {
            self.after_releases(index, (n - 1) as nat).after_release(index)
        }
    }

    /// The region after a handle was taken back at the end of its scope: a
    /// handle that owes its slot a release returns one reference, any other
    /// changes nothing.
    pub open spec fn after_drop(self, guard: BufferGuard) -> RegionView {
        if guard.owes_release() && guard.index() < self.header.capacity {
            self.after_release(guard.index())
        } else {
            self
        }
    }

    /// The region has what the action works on.
    pub open spec fn has_target(self, action: Action) -> bool {
        match action {
            Action::Word(op) => self.valid(op.target()),
            Action::Count { index, .. } => index < self.header.capacity,
            Action::LoadKind { index } => index < self.header.capacity,
            Action::LoadDevice { index } => index < self.header.capacity,
            Action::WriteRecord { index, .. } => index < self.header.capacity,
            Action::WriteHandle { index, .. } => index < self.header.capacity,
            Action::CreateRegion { index, .. } => index < self.header.capacity,
            Action::OpenRegion { index } => index < self.header.capacity,
            Action::AllocZeroed { .. } => true,
            Action::ExportHandle { .. } => true,
            Action::ImportHandle { .. } => true,
            Action::FreeDevice { .. } => true,
        }
    }

    /// The region after the action was performed on it.  Reading leaves it
    /// as it is, and so does all work on the memory of the buffers.
    pub open spec fn after_action(self, action: Action) -> RegionView {
        match action {
            Action::Word(op) => self.after(op),
            Action::Count { index, op } => self.with_ref_count(
                index,
                op.leaves(self.ref_count(index)),
            ),
            Action::WriteRecord { index, kind, device, length } => self.with_record(
                index,
                Self::new_record(self.records[index as int], index, kind, device, length),
            ),
            Action::WriteHandle { index, handle } => self.with_record(
                index,
                BufferMeta { cuda_ipc_handle: handle.reserved, ..self.records[index as int] },
            ),
            _ => self,
        }
    }

    /// The region after an attempt to reclaim slot `index`: the slot is put
    /// on the free list if its reference count is zero or less, and nothing
    /// changes otherwise.
    pub open spec fn after_try_release(self, index: u32) -> RegionView {
        if index < self.header.capacity && self.ref_count(index) <= 0 {
            self.after_free(index)
        } else {
            self
        }
    }

    /// The region after `n` host buffers of `size` bytes were asked for one
    /// after the other, and the slots that were acquired, in order.  The
    /// first acquisition that finds no slot ends the run.
    pub open spec fn after_preallocate(self, size: u64, n: nat) -> (RegionView, Seq<u32>)
        decreases n,
    {
        if n == 0 {
            (self, Seq::empty())
        } else {
            match self.alloc_outcome() {
                AllocOutcome::Slot(index) => {
                    let (last, rest) = self.after_acquire_cpu(size).after_preallocate(
                        size,
                        (n - 1) as nat,
                    );
                    (last, seq![index] + rest)
                },
                _ => (self, Seq::empty()),
            }
        }
    }

    /// The region after one device buffer of `size` bytes on `device` was
    /// asked for for each of `handles`, one after the other, each shared as
    /// its handle, and the slots that were acquired, in order.  The first
    /// acquisition that finds no slot ends the run.
    pub open spec fn after_preallocate_cuda(
        self,
        size: u64,
        device: u8,
        handles: Seq<CudaIpcHandle>,
    ) -> (RegionView, Seq<u32>)
        decreases handles.len(),
    {
        if handles.len() == 0 {
            (self, Seq::empty())
        } else {
            match self.alloc_outcome() {
                AllocOutcome::Slot(index) => {
                    let (last, rest) = self.after_acquire_cuda(
                        size,
                        device,
                        handles[0],
                    ).after_preallocate_cuda(size, device, handles.drop_first());
                    (last, seq![index] + rest)
                },
                _ => (self, Seq::empty()),
            }
        }
    }
}

/// What one round of a blocking acquisition comes to.
#[derive(Debug)]
pub enum Attempt {
    /// The buffer was acquired.
    Ready(BufferGuard),
    /// The pool is full and the deadline has not passed: sleep for
    /// [`RETRY_INTERVAL_MS`] and try again.
    Retry,
    /// The acquisition failed for good.
    Failed(Error),
}

impl Attempt {
    /// Decides how a blocking acquisition goes on after one attempt ended
    /// with `result`, given whether its deadline has `expired`.
    ///
    /// Success ends it.  A full pool is waited out until the deadline and
    /// becomes `Timeout` after it.  Every other error ends it at once.
    pub fn after(result: Result<BufferGuard, Error>, expired: bool) -> (next: Attempt)
        ensures
            match result {
                Ok(guard) => next == Attempt::Ready(guard),
                Err(e) => if e.full() {
                    if expired {
                        next == Attempt::Failed(Error::Timeout)
                    } else {
                        next == Attempt::Retry
                    }
                } else {
                    next == Attempt::Failed(e)
                },
            },
    {
        match result {
            Ok(guard) => Attempt::Ready(guard),
            Err(e) => {
                if e.is_full() {
                    if expired {
                        Attempt::Failed(Error::Timeout)
                    } else {
                        Attempt::Retry
                    }
                } else {
                    Attempt::Failed(e)
                }
            },
        }
    }
}

/// `data` is the backing that `request` asks for, for slot `index` of the
/// pool called `pool`: the data region under the buffer's name, created by
/// this process, or the device allocation that the driver put at `address`
/// and exported as `export`.
pub open spec fn provides(
    pool: Seq<char>,
    request: Request,
    address: u64,
    export: CudaIpcHandle,
    index: u32,
    data: BufferData,
) -> bool {
    match request {
        Request::Cpu { size } => host_backing(data, pool, index, size, true),
        Request::Cuda { size, device_id } => device_backing(
            data,
            device_id,
            address,
            size,
            export,
            false,
        ),
    }
}

/// `data` is the backing of the buffer that `record` describes, as a peer
/// reaches it in slot `index` of the pool called `pool`: the data region
/// under the buffer's name, or the import of the record's handle on the
/// record's device, which the driver put at `address`; either is as long as
/// the record says.
pub open spec fn reaches(
    pool: Seq<char>,
    record: BufferMeta,
    address: u64,
    index: u32,
    data: BufferData,
) -> bool {
    if record.storage_type == StorageType::Cpu.code() {
        host_backing(data, pool, index, record.size as usize, false)
    } else {
        device_backing(
            data,
            record.device_id as i32,
            address,
            record.size as usize,
            CudaIpcHandle { reserved: record.cuda_ipc_handle },
            true,
        )
    }
}

/// What an acquisition for `request` does to a region found as `start` and
/// returns, in the pool called `pool`.
///
/// With a slot to be had, the region is as the acquisition leaves it and the
/// result is a read-write handle of the slot over the backing asked for.
/// Without one the region is unchanged and the result is the error of the
/// allocation: `SharedMemory` for a full region, `BufferNotFound` for a free
/// list that leaves the region.
pub open spec fn acquired(
    pool: Seq<char>,
    start: RegionView,
    now: RegionView,
    request: Request,
    address: u64,
    export: CudaIpcHandle,
    r: Result<BufferGuard, Error>,
) -> bool {
    &&& now == match request {
        Request::Cpu { size } => start.after_acquire_cpu(size as u64),
        Request::Cuda { size, device_id } => start.after_acquire_cuda(
            size as u64,
            device_id as u8,
            export,
        ),
    }
    &&& match start.alloc_outcome() {
        AllocOutcome::Slot(index) => {
            &&& r matches Ok(guard)
            &&& fresh_handle(guard, index, AccessMode::ReadWrite)
            &&& provides(pool, request, address, export, index, guard.backing()->0)
        },
        AllocOutcome::Full => r matches Err(e) && e.is_shared_memory("metadata region full"@),
        AllocOutcome::NotFound(head) => r == Err::<BufferGuard, Error>(
            Error::BufferNotFound(head),
        ),
    }
}

/// What getting slot `index` with access `mode` does to a region found as
/// `start` and returns, in the pool called `pool`.
///
/// An index that is not below the capacity fails with `BufferNotFound` and
/// changes nothing.  Otherwise the slot gains one reference, and keeps it
/// whatever follows.  A record whose storage kind is neither host nor device
/// fails with `SharedMemory`; any other yields a handle of the slot over the
/// backing that the record describes.
pub open spec fn got(
    pool: Seq<char>,
    start: RegionView,
    now: RegionView,
    index: u32,
    mode: AccessMode,
    address: u64,
    r: Result<BufferGuard, Error>,
) -> bool {
    let record = start.records[index as int];
    if index >= start.header.capacity {
        r == Err::<BufferGuard, Error>(Error::BufferNotFound(index)) && now == start
    } else {
        &&& now == start.after_add_ref(index)
        &&& if record.storage_type == StorageType::Cpu.code() || record.storage_type
            == StorageType::Cuda.code() {
            &&& r matches Ok(guard)
            &&& fresh_handle(guard, index, mode)
            &&& reaches(pool, record, address, index, guard.backing()->0)
        } else {
            r matches Err(e) && e.is_shared_memory("invalid storage type"@)
        }
    }
}

/// What an operation on the reference count of slot `index` does to a
/// region found as `start` and returns: the count that it left, or
/// `BufferNotFound` and no change for an index that is not below the
/// capacity.
pub open spec fn counted(
    start: RegionView,
    now: RegionView,
    index: u32,
    op: CountOp,
    r: Result<i32, Error>,
) -> bool {
    if index < start.header.capacity {
        &&& now == start.with_ref_count(index, op.leaves(start.ref_count(index)))
        &&& r == Ok::<i32, Error>(op.leaves(start.ref_count(index)))
    } else {
        r == Err::<i32, Error>(Error::BufferNotFound(index)) && now == start
    }
}

/// What an attempt to reclaim slot `index` does to a region found as
/// `start` and returns: `true` with the slot on the free list when its
/// reference count was zero or less, `false` and no change when it was
/// above, `BufferNotFound` and no change for an index that is not below the
/// capacity.
pub open spec fn reclaimed(start: RegionView, now: RegionView, index: u32, r: Result<bool, Error>) -> bool {
    &&& now == start.after_try_release(index)
    &&& if index < start.header.capacity {
        r == Ok::<bool, Error>(start.ref_count(index) <= 0)
    } else {
        r == Err::<bool, Error>(Error::BufferNotFound(index))
    }
}

/// `r` is what a preallocation of `count` buffers returns when `got` are
/// the slots it acquired and `now` is the region it leaves: the slots if
/// they are `count`, and otherwise the error of the acquisition that found
/// no slot.
pub open spec fn warmed(got: Seq<u32>, count: usize, now: RegionView, r: Result<Vec<u32>, Error>) -> bool {
    if got.len() == count {
        r matches Ok(indices) && indices@ == got
    } else {
        r matches Err(e) && now.alloc_outcome().yields(Err::<u32, Error>(e)) && !(
        now.alloc_outcome() is Slot)
    }
}

spec fn acquire_progress(
    pool: Seq<char>,
    start: RegionView,
    now: RegionView,
    request: Request,
    address: u64,
    export: CudaIpcHandle,
    step: Move<AcquireState, Result<BufferGuard, Error>>,
) -> bool {
    match step {
        Move::Done(r) => acquired(pool, start, now, request, address, export, r),
        Move::Run { state, action } => match state {
            AcquireState::Allocating(inner) => action matches Action::Word(op) && alloc_progress(
                start,
                now,
                Step::Run { state: inner, op },
            ),
            AcquireState::Providing { index } => {
                &&& start.alloc_outcome() == AllocOutcome::Slot(index)
                &&& now == start.after_alloc()
                &&& action == request.provision(index)
            },
            AcquireState::Exporting { index, ptr } => {
                &&& start.alloc_outcome() == AllocOutcome::Slot(index)
                &&& now == start.after_alloc()
                &&& action == (Action::ExportHandle { ptr })
                &&& ptr == address
                &&& request is Cuda
            },
            AcquireState::Abandoning { .. } => false,
            AcquireState::Writing { index, data } => {
                &&& start.alloc_outcome() == AllocOutcome::Slot(index)
                &&& now == start.after_alloc()
                &&& action == request.record(index)
                &&& provides(pool, request, address, export, index, data)
            },
            AcquireState::Sharing { index, data } => {
                &&& start.alloc_outcome() == AllocOutcome::Slot(index)
                &&& now == start.after_alloc().after_action(request.record(index))
                &&& action == (Action::WriteHandle { index, handle: export })
                &&& request is Cuda
                &&& provides(pool, request, address, export, index, data)
            },
        },
    }
}

spec fn acquire_rank(step: Move<AcquireState, Result<BufferGuard, Error>>) -> nat {
    match step {
        Move::Done(_) => 0,
        Move::Run { state, action } => match state {
            AcquireState::Allocating(inner) => match action {
                Action::Word(op) => 4 + alloc_rank(Step::Run { state: inner, op }),
                _ => 4,
            },
            AcquireState::Providing { .. } => 4,
            AcquireState::Exporting { .. } => 3,
            AcquireState::Abandoning { .. } => 1,
            AcquireState::Writing { .. } => 2,
            AcquireState::Sharing { .. } => 1,
        },
    }
}

spec fn get_progress(
    pool: Seq<char>,
    start: RegionView,
    now: RegionView,
    index: u32,
    mode: AccessMode,
    address: u64,
    step: Move<GetState, Result<BufferGuard, Error>>,
) -> bool {
    let record = start.records[index as int];
    match step {
        Move::Done(r) => got(pool, start, now, index, mode, address, r),
        Move::Run { state, action } => index < start.header.capacity && match state {
            GetState::Counting => now == start && action == (Action::Count {
                index,
                op: CountOp::Add,
            }),
            GetState::Kind => now == start.after_add_ref(index) && action == (Action::LoadKind {
                index,
            }),
            GetState::Opening => {
                &&& now == start.after_add_ref(index)
                &&& record.storage_type == StorageType::Cpu.code()
                &&& action == (Action::OpenRegion { index })
            },
            GetState::Describing => {
                &&& now == start.after_add_ref(index)
                &&& record.storage_type == StorageType::Cuda.code()
                &&& action == (Action::LoadDevice { index })
            },
            GetState::Importing { device, size, handle } => {
                &&& now == start.after_add_ref(index)
                &&& record.storage_type == StorageType::Cuda.code()
                &&& device == record.device_id
                &&& size == record.size
                &&& handle == (CudaIpcHandle { reserved: record.cuda_ipc_handle })
                &&& action == (Action::ImportHandle {
                    device_id: device as i32,
                    handle,
                    lazy_peer: true,
                })
            },
        },
    }
}

spec fn get_rank(step: Move<GetState, Result<BufferGuard, Error>>) -> nat {
    match step {
        Move::Done(_) => 0,
        Move::Run { state, .. } => match state {
            GetState::Counting => 4,
            GetState::Kind => 3,
            GetState::Opening => 1,
            GetState::Describing => 2,
            GetState::Importing { .. } => 1,
        },
    }
}

spec fn reclaim_progress(
    start: RegionView,
    now: RegionView,
    index: u32,
    step: Move<ReclaimState, Result<bool, Error>>,
) -> bool {
    match step {
        Move::Done(r) => reclaimed(start, now, index, r),
        Move::Run { state, action } => index < start.header.capacity && match state {
            ReclaimState::Counting => now == start && action == (Action::Count {
                index,
                op: CountOp::Load,
            }),
            ReclaimState::Freeing(inner) => {
                &&& start.ref_count(index) <= 0
                &&& action matches Action::Word(op)
                &&& free_progress(start, now, index, Step::Run { state: inner, op })
            },
        },
    }
}

spec fn reclaim_rank(step: Move<ReclaimState, Result<bool, Error>>) -> nat {
    match step {
        Move::Done(_) => 0,
        Move::Run { state, action } => match state {
            ReclaimState::Counting => 5,
            ReclaimState::Freeing(inner) => match action {
                Action::Word(op) => free_rank(Step::Run { state: inner, op }),
                _ => 0,
            },
        },
    }
}

/// A pool of shared buffers: its name and its metadata region.
#[derive(Debug)]
pub struct BufferPool {
    name: String,
    meta_region: MetaRegion,
}

impl View for BufferPool {
    type V = RegionView;

    closed spec fn view(&self) -> RegionView {
        self.meta_region@
    }
}

impl BufferPool {
    /// The name of the pool.
    pub closed spec fn spec_name(&self) -> Seq<char> {
        self.name@
    }

    /// The pool is consistent: its region holds its records and carries the
    /// pool's name with `_meta` behind it.
    pub closed spec fn inv(&self) -> bool {
        &&& self.meta_region.inv()
        &&& self.meta_region.spec_name() == meta_region_name(self.name@)
    }

    /// A consistent pool holds as many records as its header counts.
    pub proof fn lemma_inv_structural(&self)
        requires
            self.inv(),
        ensures
            self@.structural(),
    {
    }

    /// Creates a pool of [`DEFAULT_CAPACITY`] slots.
    pub fn create(name: &str) -> (r: Result<BufferPool, Error>)
        ensures
            r matches Ok(pool) && pool.inv() && pool.spec_name() == name@ && pool@.is_fresh(
                DEFAULT_CAPACITY as u32,
            ) && pool@.wf(),
    {
        Self::create_with_capacity(name, DEFAULT_CAPACITY)
    }

    /// Creates a pool of `capacity` slots: its metadata region is formatted
    /// under the pool's name with `_meta` behind it.
    ///
    /// Fails, with `SharedMemory`, exactly when the capacity cannot be laid
    /// out.
    pub fn create_with_capacity(name: &str, capacity: usize) -> (r: Result<BufferPool, Error>)
        ensures
            match r {
                Ok(pool) => {
                    &&& capacity_fits(capacity)
                    &&& pool.inv()
                    &&& pool.spec_name() == name@
                    &&& pool@.is_fresh(capacity as u32)
                    &&& pool@.wf()
                },
                Err(e) => !capacity_fits(capacity) && e.is_shared_memory(
                    "capacity out of range"@,
                ),
            },
    {
        let region_name = meta_name(name);
        match MetaRegion::create(region_name.as_str(), capacity) {
            Ok(meta_region) => Ok(BufferPool { name: String::from_str(name), meta_region }),
            Err(e) => Err(e),
        }
    }

    /// Opens the pool called `name` whose metadata region was found to hold
    /// `header` and `records`.
    ///
    /// Fails, with `SharedMemory`, when the magic or the version of the
    /// header is not the one this crate writes, and otherwise when the
    /// records are not as many as the header counts.
    pub fn open(name: &str, header: MetaRegionHeader, records: Vec<BufferMeta>) -> (r: Result<
        BufferPool,
        Error,
    >)
        ensures
            r is Ok <==> header.accepted() && records@.len() == header.capacity,
            r matches Ok(pool) ==> {
                &&& pool.inv()
                &&& pool.spec_name() == name@
                &&& pool@ == (RegionView { header, records: records@ })
            },
            r matches Err(e) ==> if header.magic != MAGIC {
                e.is_shared_memory("invalid magic number"@)
            } else if header.version != VERSION {
                e.is_shared_memory(MetaRegionHeader::version_mismatch(header.version))
            } else {
                e.is_shared_memory(MetaRegionHeader::short())
            },
    {
        let region_name = meta_name(name);
        match MetaRegion::open(region_name.as_str(), header, records) {
            Ok(meta_region) => Ok(BufferPool { name: String::from_str(name), meta_region }),
            Err(e) => Err(e),
        }
    }

    /// The name of the pool.
    pub fn name(&self) -> (n: &str)
        ensures
            n@ == self.spec_name(),
    {
        self.name.as_str()
    }

    /// Number of slots of the pool.
    pub fn capacity(&self) -> (c: usize)
        requires
            self.inv(),
        ensures
            c == self@.header.capacity,
    {
        self.meta_region.capacity()
    }

    /// The metadata region of the pool.
    pub fn meta_region(&self) -> (region: &MetaRegion)
        requires
            self.inv(),
        ensures
            region.inv(),
            region@ == self@,
            region.spec_name() == meta_region_name(self.spec_name()),
    {
        &self.meta_region
    }

    /// Name of the data region of host buffer `meta_index`.
    pub fn buffer_shm_name(&self, meta_index: u32) -> (n: String)
        ensures
            n@ == buffer_region_name(self.spec_name(), meta_index),
    {
        buffer_name(self.name.as_str(), meta_index)
    }

    /// `event` is what the action brings about on this pool when nothing
    /// fails: words, counts and record fields as the region holds them, a
    /// data region of the length asked for or recorded, device memory at
    /// `address`, and `export` for the handle of an allocation.
    pub open spec fn answers(
        &self,
        action: Action,
        address: u64,
        export: CudaIpcHandle,
        event: Event,
    ) -> bool {
        let record = |index: u32| self@.records[index as int];
        match action {
            Action::Word(op) => event == Event::Word(self@.reply(op)),
            Action::Count { index, .. } => event == Event::Count(self@.ref_count(index)),
            Action::LoadKind { index } => event == Event::Kind(record(index).storage_type),
            Action::LoadDevice { index } => event == (Event::Device {
                device: record(index).device_id,
                size: record(index).size,
                handle: CudaIpcHandle { reserved: record(index).cuda_ipc_handle },
            }),
            Action::WriteRecord { .. } => event == Event::Written,
            Action::WriteHandle { .. } => event == Event::Written,
            Action::CreateRegion { size, .. } => event == Event::Region(Ok(size)),
            Action::OpenRegion { index } => event == Event::Region(
                Ok(record(index).size as usize),
            ),
            Action::AllocZeroed { .. } => event == Event::Pointer(Ok(address)),
            Action::ExportHandle { .. } => event == Event::Handle(Ok(export)),
            Action::ImportHandle { .. } => event == Event::Pointer(Ok(address)),
            Action::FreeDevice { .. } => event == Event::Released,
        }
    }

    /// Performs an action on this pool, with every piece of work on the
    /// memory of the buffers taken to succeed: a data region is as long as
    /// was asked for or as its record says, device memory lies at
    /// `address`, and an allocation is exported as `export`.
    fn perform(&mut self, action: Action, address: u64, export: CudaIpcHandle) -> (event: Event)
        requires
            old(self).inv(),
            old(self)@.has_target(action),
        ensures
            final(self).inv(),
            final(self).spec_name() == old(self).spec_name(),
            final(self)@ == old(self)@.after_action(action),
            old(self).answers(action, address, export, event),
    {
        match action {
            Action::Word(op) => Event::Word(self.meta_region.apply(op)),
            Action::Count { index, op } => {
                let meta = self.meta_region.record_mut(index);
                let before = meta.ref_count;
                meta.ref_count = op.result(before);
                Event::Count(before)
            },
            Action::LoadKind { index } => Event::Kind(self.meta_region.record(index).storage_type),
            Action::LoadDevice { index } => {
                let meta = self.meta_region.record(index);
                Event::Device {
                    device: meta.device_id,
                    size: meta.size,
                    handle: CudaIpcHandle { reserved: meta.cuda_ipc_handle },
                }
            },
            Action::WriteRecord { index, kind, device, length } => {
                let meta = self.meta_region.record_mut(index);
                meta.id = index;
                meta.ref_count = 1;
                meta.storage_type = kind.to_u8();
                meta.device_id = device;
                meta.size = length;
                Event::Written
            },
            Action::WriteHandle { index, handle } => {
                let meta = self.meta_region.record_mut(index);
                meta.cuda_ipc_handle = handle.reserved;
                Event::Written
            },
            Action::CreateRegion { size, .. } => Event::Region(Ok(size)),
            Action::OpenRegion { index } => {
                let len = #[verifier::truncate]
                (self.meta_region.record(index).size as usize);
                Event::Region(Ok(len))
            },
            Action::AllocZeroed { .. } => Event::Pointer(Ok(address)),
            Action::ExportHandle { .. } => Event::Handle(Ok(export)),
            Action::ImportHandle { .. } => Event::Pointer(Ok(address)),
            Action::FreeDevice { .. } => Event::Released,
        }
    }

    /// Runs an acquisition for `request` to its end on this pool.
    fn acquire(&mut self, request: Request, address: u64, export: CudaIpcHandle) -> (r: Result<
        BufferGuard,
        Error,
    >)
        requires
            old(self).inv(),
        ensures
            final(self).inv(),
            final(self).spec_name() == old(self).spec_name(),
            acquired(
                old(self).spec_name(),
                old(self)@,
                final(self)@,
                request,
                address,
                export,
                r,
            ),
            old(self)@.wf() ==> final(self)@.wf(),
    {
        let ghost start = self@;
        let ghost pool = self.spec_name();
        let capacity = self.meta_region.header().capacity;
        let mut step = acquire_start(request);
        loop
            invariant
                self.inv(),
                self.spec_name() == pool,
                pool == old(self).spec_name(),
                start == old(self)@,
                start.structural(),
                capacity == start.header.capacity,
                acquire_progress(pool, start, self@, request, address, export, step),
            decreases acquire_rank(step),
        {
            match step {
                Move::Done(r) => {
                    proof {
                        if start.wf() {
                            lemma_acquire_keeps_wf(
                                start,
                                request.len() as u64,
                                request->device_id as u8,
                                export,
                            );
                        }
                    }
                    return r;
                },
                Move::Run { state, action } => {
                    proof {
                        if let AcquireState::Allocating(inner) = state {
                            lemma_alloc_step(start, self@, inner, action->Word_0);
                        }
                    }
                    let ghost sharing = state is Sharing;
                    let event = self.perform(action, address, export);
                    step = acquire_next(state, event, request, self.name.as_str(), capacity);
                    proof {
                        if sharing {
                            assert(self@.records =~= start.after_acquire_cuda(
                                request.len() as u64,
                                request->device_id as u8,
                                export,
                            ).records);
                        }
                    }
                },
            }
        }
    }

    /// Acquires a new host buffer of `size` bytes.
    ///
    /// A slot is allocated, the data region is named after it, and the
    /// record is written: the slot's index, one reference, host storage, the
    /// size.  The handle is read-write.  Without a free slot the acquisition
    /// fails as the allocation does and the pool is left as it was.
    pub fn acquire_cpu(&mut self, size: usize) -> (r: Result<BufferGuard, Error>)
        requires
            old(self).inv(),
        ensures
            final(self).inv(),
            final(self).spec_name() == old(self).spec_name(),
            final(self)@ == old(self)@.after_acquire_cpu(size as u64),
            old(self)@.wf() ==> final(self)@.wf(),
            match old(self)@.alloc_outcome() {
                AllocOutcome::Slot(index) => {
                    &&& r matches Ok(guard)
                    &&& fresh_handle(guard, index, AccessMode::ReadWrite)
                    &&& guard.backing() matches Some(BufferData::Cpu(shm))
                    &&& shm.spec_name() == buffer_region_name(old(self).spec_name(), index)
                    &&& shm.spec_size() == size
                    &&& shm.spec_owner()
                },
                AllocOutcome::Full => r matches Err(e) && e.is_shared_memory(
                    "metadata region full"@,
                ),
                AllocOutcome::NotFound(head) => r == Err::<BufferGuard, Error>(
                    Error::BufferNotFound(head),
                ),
            },
    {
        self.acquire(Request::Cpu { size }, 0, CudaIpcHandle::default())
    }

    /// Acquires a new device buffer of `size` bytes on device `device_id`,
    /// which the driver allocated at `ptr` and exported as `ipc_handle`.
    ///
    /// As for a host buffer, with device storage and the low byte of the
    /// device ordinal in the record, and the handle copied into it.  The
    /// handle's device view is the address the driver gave.
    pub fn acquire_cuda(
        &mut self,
        size: usize,
        device_id: i32,
        ptr: u64,
        ipc_handle: CudaIpcHandle,
    ) -> (r: Result<BufferGuard, Error>)
        requires
            old(self).inv(),
        ensures
            final(self).inv(),
            final(self).spec_name() == old(self).spec_name(),
            final(self)@ == old(self)@.after_acquire_cuda(
                size as u64,
                device_id as u8,
                ipc_handle,
            ),
            old(self)@.wf() ==> final(self)@.wf(),
            match old(self)@.alloc_outcome() {
                AllocOutcome::Slot(index) => {
                    &&& r matches Ok(guard)
                    &&& fresh_handle(guard, index, AccessMode::ReadWrite)
                    &&& guard.backing() matches Some(BufferData::Cuda(buf))
                    &&& buf.spec_device_id() == device_id
                    &&& buf.spec_ptr() == ptr
                    &&& buf.spec_size() == size
                    &&& buf.spec_ipc_handle() == ipc_handle
                    &&& !buf.spec_imported()
                    &&& guard.as_cuda_view() == Some(ptr)
                },
                AllocOutcome::Full => r matches Err(e) && e.is_shared_memory(
                    "metadata region full"@,
                ),
                AllocOutcome::NotFound(head) => r == Err::<BufferGuard, Error>(
                    Error::BufferNotFound(head),
                ),
            },
    {
        self.acquire(Request::Cuda { size, device_id }, ptr, ipc_handle)
    }

    /// A read-only handle of the buffer in slot `meta_index`.  For a device
    /// buffer the import is taken to lie at address zero; a caller that has
    /// the driver's address uses [`BufferPool::get_with_mode`].
    pub fn get(&mut self, meta_index: u32) -> (r: Result<BufferGuard, Error>)
        requires
            old(self).inv(),
        ensures
            final(self).inv(),
            final(self).spec_name() == old(self).spec_name(),
            got(
                old(self).spec_name(),
                old(self)@,
                final(self)@,
                meta_index,
                AccessMode::ReadOnly,
                0,
                r,
            ),
            old(self)@.wf() ==> final(self)@.wf(),
    {
        self.get_with_mode(meta_index, AccessMode::ReadOnly, 0)
    }

    /// A read-write handle of the buffer in slot `meta_index`.  For a device
    /// buffer the import is taken to lie at address zero; a caller that has
    /// the driver's address uses [`BufferPool::get_with_mode`].
    pub fn get_mut(&mut self, meta_index: u32) -> (r: Result<BufferGuard, Error>)
        requires
            old(self).inv(),
        ensures
            final(self).inv(),
            final(self).spec_name() == old(self).spec_name(),
            got(
                old(self).spec_name(),
                old(self)@,
                final(self)@,
                meta_index,
                AccessMode::ReadWrite,
                0,
                r,
            ),
            old(self)@.wf() ==> final(self)@.wf(),
    {
        self.get_with_mode(meta_index, AccessMode::ReadWrite, 0)
    }

    /// A handle of the buffer in slot `meta_index` with the given access
    /// mode.  `imported` is the address at which the driver puts the import
    /// of a device buffer; it is the device view of the handle, and plays no
    /// part for a host buffer.
    pub fn get_with_mode(&mut self, meta_index: u32, mode: AccessMode, imported: u64) -> (r:
        Result<BufferGuard, Error>)
        requires
            old(self).inv(),
        ensures
            final(self).inv(),
            final(self).spec_name() == old(self).spec_name(),
            got(old(self).spec_name(), old(self)@, final(self)@, meta_index, mode, imported, r),
            old(self)@.wf() ==> final(self)@.wf(),
    {
        let ghost start = self@;
        let ghost pool = self.spec_name();
        let capacity = self.meta_region.header().capacity;
        let mut step = get_start(meta_index, capacity);
        loop
            invariant
                self.inv(),
                self.spec_name() == pool,
                pool == old(self).spec_name(),
                start == old(self)@,
                start.structural(),
                get_progress(pool, start, self@, meta_index, mode, imported, step),
            decreases get_rank(step),
        {
            match step {
                Move::Done(r) => {
                    proof {
                        if start.wf() && meta_index < start.header.capacity {
                            lemma_ref_count_keeps_wf(
                                start,
                                meta_index,
                                start.ref_count(meta_index).wrapping_add(1),
                            );
                        }
                    }
                    return r;
                },
                Move::Run { state, action } => {
                    let event = self.perform(action, imported, CudaIpcHandle::default());
                    step = get_next(state, event, self.name.as_str(), meta_index, mode);
                },
            }
        }
    }

    /// Runs an operation on the reference count of slot `index` to its end
    /// on this pool.
    fn count(&mut self, index: u32, op: CountOp) -> (r: Result<i32, Error>)
        requires
            old(self).inv(),
        ensures
            final(self).inv(),
            final(self).spec_name() == old(self).spec_name(),
            counted(old(self)@, final(self)@, index, op, r),
            old(self)@.wf() ==> final(self)@.wf(),
    {
        let ghost start = self@;
        let capacity = self.meta_region.header().capacity;
        let mut step = count_start(index, capacity, op);
        loop
            invariant
                self.inv(),
                self.spec_name() == old(self).spec_name(),
                start == old(self)@,
                start.structural(),
                match step {
                    Move::Done(r) => counted(start, self@, index, op, r),
                    Move::Run { state, action } => {
                        &&& index < start.header.capacity
                        &&& self@ == start
                        &&& state == op
                        &&& action == (Action::Count { index, op })
                    },
                },
            decreases (if step is Done {
                0nat
            } else {
                1nat
            }),
        {
            match step {
                Move::Done(r) => {
                    proof {
                        if start.wf() && index < start.header.capacity {
                            lemma_ref_count_keeps_wf(
                                start,
                                index,
                                op.leaves(start.ref_count(index)),
                            );
                        }
                    }
                    return r;
                },
                Move::Run { state, action } => {
                    let event = self.perform(action, 0, CudaIpcHandle::default());
                    step = count_next(state, event);
                },
            }
        }
    }

    /// Sets the reference count of slot `meta_index` to `count`.
    pub fn set_ref_count(&mut self, meta_index: u32, count: i32) -> (r: Result<(), Error>)
        requires
            old(self).inv(),
        ensures
            final(self).inv(),
            final(self).spec_name() == old(self).spec_name(),
            old(self)@.wf() ==> final(self)@.wf(),
            if meta_index < old(self)@.header.capacity {
                r == Ok::<(), Error>(()) && final(self)@ == old(self)@.with_ref_count(
                    meta_index,
                    count,
                )
            } else {
                r == Err::<(), Error>(Error::BufferNotFound(meta_index)) && final(self)@ == old(self)@
            },
    {
        match self.count(meta_index, CountOp::Store(count)) {
            Ok(_) => Ok(()),
            Err(e) => Err(e),
        }
    }

    /// Adds one reference to slot `meta_index` and returns the new count.
    pub fn add_ref(&mut self, meta_index: u32) -> (r: Result<i32, Error>)
        requires
            old(self).inv(),
        ensures
            final(self).inv(),
            final(self).spec_name() == old(self).spec_name(),
            old(self)@.wf() ==> final(self)@.wf(),
            if meta_index < old(self)@.header.capacity {
                &&& final(self)@ == old(self)@.after_add_ref(meta_index)
                &&& r == Ok::<i32, Error>(final(self)@.ref_count(meta_index))
            } else {
                r == Err::<i32, Error>(Error::BufferNotFound(meta_index)) && final(self)@ == old(self)@
            },
    {
        self.count(meta_index, CountOp::Add)
    }

    /// Releases one reference to slot `meta_index` and returns the new
    /// count.  The slot stays allocated even at zero.
    pub fn release(&mut self, meta_index: u32) -> (r: Result<i32, Error>)
        requires
            old(self).inv(),
        ensures
            final(self).inv(),
            final(self).spec_name() == old(self).spec_name(),
            old(self)@.wf() ==> final(self)@.wf(),
            if meta_index < old(self)@.header.capacity {
                &&& final(self)@ == old(self)@.after_release(meta_index)
                &&& r == Ok::<i32, Error>(final(self)@.ref_count(meta_index))
            } else {
                r == Err::<i32, Error>(Error::BufferNotFound(meta_index)) && final(self)@ == old(self)@
            },
    {
        self.count(meta_index, CountOp::Sub)
    }

    /// The reference count of slot `meta_index`.
    pub fn ref_count(&self, meta_index: u32) -> (r: Result<i32, Error>)
        requires
            self.inv(),
        ensures
            if meta_index < self@.header.capacity {
                r == Ok::<i32, Error>(self@.ref_count(meta_index))
            } else {
                r == Err::<i32, Error>(Error::BufferNotFound(meta_index))
            },
    {
        match self.meta_region.get(meta_index) {
            Ok(meta) => Ok(meta.ref_count),
            Err(e) => Err(e),
        }
    }

    /// Puts slot `meta_index` back on the free list.  The data region of
    /// the buffer stays as it is, to be reused with the slot.
    pub fn release_buffer(&mut self, meta_index: u32) -> (r: Result<(), Error>)
        requires
            old(self).inv(),
        ensures
            final(self).inv(),
            final(self).spec_name() == old(self).spec_name(),
            final(self)@ == old(self)@.after_free(meta_index),
            old(self)@.free_outcome(meta_index).yields(r),
            old(self)@.wf() && old(self)@.is_live(meta_index) ==> final(self)@.wf(),
    {
        self.meta_region.free(meta_index)
    }

    /// Reclaims slot `meta_index` if nothing refers to it any more.
    ///
    /// Returns `true`, and puts the slot on the free list, when its
    /// reference count is zero or less; returns `false` and changes nothing
    /// otherwise.
    pub fn try_release(&mut self, meta_index: u32) -> (r: Result<bool, Error>)
        requires
            old(self).inv(),
        ensures
            final(self).inv(),
            final(self).spec_name() == old(self).spec_name(),
            reclaimed(old(self)@, final(self)@, meta_index, r),
            old(self)@.wf() && old(self)@.is_live(meta_index) ==> final(self)@.wf(),
    {
        let ghost start = self@;
        let capacity = self.meta_region.header().capacity;
        let mut step = reclaim_start(meta_index, capacity);
        loop
            invariant
                self.inv(),
                self.spec_name() == old(self).spec_name(),
                start == old(self)@,
                start.structural(),
                capacity == start.header.capacity,
                reclaim_progress(start, self@, meta_index, step),
            decreases reclaim_rank(step),
        {
            match step {
                Move::Done(r) => {
                    proof {
                        if start.wf() && start.is_live(meta_index) {
                            lemma_try_release_keeps_wf(start, meta_index);
                        }
                    }
                    return r;
                },
                Move::Run { state, action } => {
                    proof {
                        if let ReclaimState::Freeing(inner) = state {
                            lemma_free_step(start, self@, meta_index, inner, action->Word_0);
                        }
                    }
                    let ghost counting = state is Counting;
                    let event = self.perform(action, 0, CudaIpcHandle::default());
                    step = reclaim_next(state, event, meta_index, capacity);
                    proof {
                        if counting {
                            assert(self@.records =~= start.records);
                        }
                    }
                },
            }
        }
    }

    /// Takes a handle back at the end of its scope.
    ///
    /// A handle that still owes its slot a release lowers the slot's
    /// reference count by exactly one; a handle that was given up with
    /// [`BufferGuard::forget`] changes nothing.  The slot is not reclaimed,
    /// whatever its count comes to.
    pub fn drop_guard(&mut self, guard: BufferGuard)
        requires
            old(self).inv(),
        ensures
            final(self).inv(),
            final(self).spec_name() == old(self).spec_name(),
            final(self)@ == old(self)@.after_drop(guard),
            old(self)@.wf() ==> final(self)@.wf(),
    {
        if guard.releases() {
            let _ = self.count(guard.meta_index(), CountOp::Sub);
        }
    }

    /// Acquires `count` host buffers of `size` bytes and gives every handle
    /// up, so that each slot keeps its one reference; returns the slots in
    /// the order they were acquired.
    ///
    /// The first acquisition that finds no slot ends the run with its
    /// error; the buffers acquired before it stay.
    pub fn preallocate_cpu(&mut self, size: usize, count: usize) -> (r: Result<Vec<u32>, Error>)
        requires
            old(self).inv(),
        ensures
            final(self).inv(),
            final(self).spec_name() == old(self).spec_name(),
            final(self)@ == old(self)@.after_preallocate(size as u64, count as nat).0,
            old(self)@.wf() ==> final(self)@.wf(),
            warmed(old(self)@.after_preallocate(size as u64, count as nat).1, count, final(self)@, r),
    {
        let ghost size64 = size as u64;
        let ghost goal = self@.after_preallocate(size64, count as nat);
        proof {
            if self@.wf() {
                lemma_preallocate_keeps_wf(self@, size64, count as nat);
            }
            assert(Seq::<u32>::empty() + goal.1 =~= goal.1);
        }
        let mut step = preallocate_start(count);
        loop
            invariant
                self.inv(),
                self.spec_name() == old(self).spec_name(),
                size64 == size as u64,
                goal == old(self)@.after_preallocate(size64, count as nat),
                old(self)@.wf() ==> goal.0.wf(),
                match step {
                    Warm::Done(r) => self@ == goal.0 && warmed(goal.1, count, self@, r),
                    Warm::More(indices) => {
                        let left = (count - indices@.len()) as nat;
                        &&& indices@.len() < count
                        &&& goal.0 == self@.after_preallocate(size64, left).0
                        &&& goal.1 == indices@ + self@.after_preallocate(size64, left).1
                    },
                },
            decreases
                    (match step {
                        Warm::Done(_) => 0nat,
                        Warm::More(indices) => (count - indices@.len() + 1) as nat,
                    }),
        {
            match step {
                Warm::Done(r) => {
                    return r;
                },
                Warm::More(indices) => {
                    let ghost before = self@;
                    let ghost had = indices@;
                    let ghost left = (count - had.len()) as nat;
                    let acquired = self.acquire_cpu(size);
                    step = preallocate_next(indices, acquired, count);
                    proof {
                        let rest = self@.after_preallocate(size64, (left - 1) as nat).1;
                        match before.alloc_outcome() {
                            AllocOutcome::Slot(index) => {
                                assert(before.after_preallocate(size64, left).1 == seq![index]
                                    + rest);
                                assert(had.push(index) + rest =~= had + (seq![index] + rest));
                                assert(had.push(index) + Seq::<u32>::empty() =~= had.push(index));
                            },
                            _ => {
                                assert(before.after_preallocate(size64, left).1 =~= Seq::<
                                    u32,
                                >::empty());
                                assert(had + Seq::<u32>::empty() =~= had);
                            },
                        }
                    }
                },
            }
        }
    }

    /// Acquires one device buffer of `size` bytes on device `device_id` for
    /// each of `handles`, the handle being what the driver exported for it,
    /// and gives every handle of a buffer up, so that each slot keeps its
    /// one reference; returns the slots in the order they were acquired.
    /// The addresses of the memory play no part, as no handle of a buffer is
    /// kept.
    ///
    /// The first acquisition that finds no slot ends the run with its
    /// error; the buffers acquired before it stay.
    pub fn preallocate_cuda(
        &mut self,
        size: usize,
        device_id: i32,
        handles: &Vec<CudaIpcHandle>,
    ) -> (r: Result<Vec<u32>, Error>)
        requires
            old(self).inv(),
        ensures
            final(self).inv(),
            final(self).spec_name() == old(self).spec_name(),
            final(self)@ == old(self)@.after_preallocate_cuda(
                size as u64,
                device_id as u8,
                handles@,
            ).0,
            old(self)@.wf() ==> final(self)@.wf(),
            warmed(
                old(self)@.after_preallocate_cuda(size as u64, device_id as u8, handles@).1,
                handles@.len() as usize,
                final(self)@,
                r,
            ),
    {
        let ghost size64 = size as u64;
        let ghost device = device_id as u8;
        let ghost goal = self@.after_preallocate_cuda(size64, device, handles@);
        let count = handles.len();
        proof {
            assert(handles@.subrange(0, count as int) =~= handles@);
            if self@.wf() {
                lemma_preallocate_cuda_keeps_wf(self@, size64, device, handles@);
            }
            assert(Seq::<u32>::empty() + goal.1 =~= goal.1);
        }
        let mut step = preallocate_start(count);
        loop
            invariant
                self.inv(),
                self.spec_name() == old(self).spec_name(),
                count == handles@.len(),
                size64 == size as u64,
                device == device_id as u8,
                goal == old(self)@.after_preallocate_cuda(size64, device, handles@),
                old(self)@.wf() ==> goal.0.wf(),
                match step {
                    Warm::Done(r) => self@ == goal.0 && warmed(goal.1, count, self@, r),
                    Warm::More(indices) => {
                        let left = handles@.subrange(indices@.len() as int, count as int);
                        &&& indices@.len() < count
                        &&& goal.0 == self@.after_preallocate_cuda(size64, device, left).0
                        &&& goal.1 == indices@ + self@.after_preallocate_cuda(
                            size64,
                            device,
                            left,
                        ).1
                    },
                },
            decreases
                    (match step {
                        Warm::Done(_) => 0nat,
                        Warm::More(indices) => (count - indices@.len() + 1) as nat,
                    }),
        {
            match step {
                Warm::Done(r) => {
                    return r;
                },
                Warm::More(indices) => {
                    let ghost before = self@;
                    let ghost had = indices@;
                    let ghost left = handles@.subrange(had.len() as int, count as int);
                    proof {
                        assert(left.drop_first() =~= handles@.subrange(had.len() as int + 1, count as int));
                        assert(left[0] == handles@[had.len() as int]);
                    }
                    let acquired = self.acquire_cuda(size, device_id, 0, handles[indices.len()]);
                    step = preallocate_next(indices, acquired, count);
                    proof {
                        let rest = self@.after_preallocate_cuda(
                            size64,
                            device,
                            left.drop_first(),
                        ).1;
                        match before.alloc_outcome() {
                            AllocOutcome::Slot(index) => {
                                assert(before.after_preallocate_cuda(size64, device, left).1
                                    == seq![index] + rest);
                                assert(had.push(index) + rest =~= had + (seq![index] + rest));
                                assert(had.push(index) + Seq::<u32>::empty() =~= had.push(index));
                            },
                            _ => {
                                assert(before.after_preallocate_cuda(size64, device, left).1
                                    =~= Seq::<u32>::empty());
                                assert(had + Seq::<u32>::empty() =~= had);
                            },
                        }
                    }
                },
            }
        }
    }

    /// One round of a blocking acquisition of a host buffer of `size` bytes:
    /// one attempt, and what to do about its outcome given whether the
    /// deadline has `expired`.
    ///
    /// The caller sleeps for [`RETRY_INTERVAL_MS`] after a round that says
    /// `Retry`, looks at its clock, and asks again.  An attempt is made in
    /// every round, also in one that starts past the deadline.
    pub fn acquire_cpu_blocking(&mut self, size: usize, expired: bool) -> (next: Attempt)
        requires
            old(self).inv(),
        ensures
            final(self).inv(),
            final(self).spec_name() == old(self).spec_name(),
            final(self)@ == old(self)@.after_acquire_cpu(size as u64),
            old(self)@.wf() ==> final(self)@.wf(),
            match old(self)@.alloc_outcome() {
                AllocOutcome::Slot(index) => {
                    &&& next matches Attempt::Ready(guard)
                    &&& fresh_handle(guard, index, AccessMode::ReadWrite)
                    &&& guard.backing() matches Some(BufferData::Cpu(shm))
                    &&& shm.spec_name() == buffer_region_name(old(self).spec_name(), index)
                    &&& shm.spec_size() == size
                    &&& shm.spec_owner()
                },
                AllocOutcome::Full => if expired {
                    next == Attempt::Failed(Error::Timeout)
                } else {
                    next == Attempt::Retry
                },
                AllocOutcome::NotFound(head) => next == Attempt::Failed(
                    Error::BufferNotFound(head),
                ),
            },
    {
        let result = self.acquire_cpu(size);
        proof {
            lemma_full_detail_mentions_full();
        }
        Attempt::after(result, expired)
    }
}

/// The detail of the error that reports a full region mentions `full`.
proof fn lemma_full_detail_mentions_full()
    ensures
        contains("metadata region full"@, "full"@),
{
    reveal_strlit("metadata region full");
    reveal_strlit("full");
    let hay = "metadata region full"@;
    let needle = "full"@;
    assert(hay.subrange(16int, 16int + needle.len()) =~= needle);
}

/// A handle that an acquisition hands out holds the one reference of its
/// slot: the slot's count is 1 when the acquisition returns.
pub proof fn lemma_acquire_takes_one_reference(
    v: RegionView,
    size: u64,
    device: u8,
    handle: CudaIpcHandle,
    index: u32,
)
    requires
        v.structural(),
        v.alloc_outcome() == AllocOutcome::Slot(index),
    ensures
        v.after_acquire_cpu(size).ref_count(index) == 1,
        v.after_acquire_cuda(size, device, handle).ref_count(index) == 1,
{
}

/// A handle that `get` hands out holds one more reference of its slot: the
/// count rises by exactly one, so a slot that was referenced stays so.
pub proof fn lemma_get_takes_one_reference(v: RegionView, index: u32)
    requires
        v.structural(),
        index < v.header.capacity,
        v.ref_count(index) < i32::MAX,
    ensures
        v.after_add_ref(index).ref_count(index) == v.ref_count(index) + 1,
        v.ref_count(index) >= 0 ==> v.after_add_ref(index).ref_count(index) >= 1,
{
}

/// Taking a handle back lowers the count of its slot by exactly one, and
/// only that; taking back what `forget` left of a handle changes nothing.
pub proof fn lemma_drop_returns_one_reference(v: RegionView, guard: BufferGuard)
    requires
        v.structural(),
        guard.index() < v.header.capacity,
        v.ref_count(guard.index()) > i32::MIN,
    ensures
        guard.owes_release() ==> v.after_drop(guard).ref_count(guard.index()) == v.ref_count(
            guard.index(),
        ) - 1,
        guard.owes_release() ==> forall|other: u32|
            other < v.header.capacity && other != guard.index() ==> v.after_drop(guard).ref_count(
                other,
            ) == v.ref_count(other),
        !guard.owes_release() ==> v.after_drop(guard) == v,
        v.after_drop(guard).header == v.header,
{
}

/// Adding a reference and releasing it again leaves the region, the count
/// with it, as it was; so does releasing first and adding after.
pub proof fn lemma_add_ref_then_release(v: RegionView, index: u32)
    requires
        v.structural(),
        index < v.header.capacity,
    ensures
        v.after_add_ref(index).after_release(index) == v,
        v.after_release(index).after_add_ref(index) == v,
{
    assert(v.after_add_ref(index).after_release(index).records =~= v.records);
    assert(v.after_release(index).after_add_ref(index).records =~= v.records);
}

/// With the bump cursor at the capacity and no slot free, an acquisition
/// fails as a full region does and leaves the region, the cursor with it,
/// as it was.
pub proof fn lemma_full_acquire_fails(v: RegionView, size: u64)
    requires
        v.header.next_id == v.header.capacity,
        v.header.free_head == EMPTY,
    ensures
        v.alloc_outcome() == AllocOutcome::Full,
        v.after_acquire_cpu(size) == v,
{
}

/// Reaching a count of zero reclaims nothing: the slot stays allocated
/// through every release, and only an attempt to reclaim it puts it on the
/// free list.
pub proof fn lemma_release_keeps_slot(v: RegionView, index: u32)
    requires
        v.structural(),
        index < v.header.capacity,
    ensures
        v.after_release(index).header == v.header,
        v.after_release(index).records[index as int].next_free == v.records[index as int].next_free,
{
}

/// Of the releases that bring the count of a slot down from `count`, in
/// whatever order they reach the slot, one and only one finds the count at
/// zero afterwards: the one that comes as number `count`.
pub proof fn lemma_one_release_reaches_zero(v: RegionView, index: u32, count: nat, n: nat)
    requires
        v.structural(),
        index < v.header.capacity,
        v.ref_count(index) == count,
        n <= count,
    ensures
        v.after_releases(index, n).structural(),
        v.after_releases(index, n).header == v.header,
        v.after_releases(index, n).ref_count(index) == count - n,
        v.after_releases(index, n).ref_count(index) == 0 <==> n == count,
    decreases n,
{
    if n > 0 {
        lemma_one_release_reaches_zero(v, index, count, (n - 1) as nat);
    }
}

} // verus!
