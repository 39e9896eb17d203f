//! The buffer lifecycle, one action at a time.
//!
//! The operations of a pool touch words that other processes share and ask
//! the operating system or the device driver for memory.  None of that can
//! be done from here, so every operation is a step function, as the slot
//! protocols of [`crate::protocol`] are: it names the next [`Action`] for
//! the holder of the region to perform and takes the [`Event`] that came of
//! it, until it has a result.  All decisions of the operation are taken
//! here; the holder performs the actions in the order it is given them.

use crate::buffer::BufferData;
use crate::cuda::{CudaBuffer, CudaIpcHandle};
use crate::error::Error;
use crate::guard::BufferGuard;
use crate::protocol::{
    alloc_first, alloc_next, alloc_start, alloc_then, free_first, free_next, free_start,
    free_then, AllocOutcome, AllocState, CellOp, CellReply, FreeOutcome, FreeState, MemOrder,
    Step,
};
use crate::shm::SharedMemory;
use crate::storage::{AccessMode, StorageType};
use crate::text::{append_decimal, decimal};
use vstd::prelude::*;
use vstd::string::*;

verus! {

/// An atomic operation on the reference count of a slot.
#[derive(Debug, Clone, Copy, PartialEq, Eq, Structural)]
pub enum CountOp {
    /// Read the count.
    Load,
    /// Set the count.
    Store(i32),
    /// Add one, wrapping.
    Add,
    /// Subtract one, wrapping.
    Sub,
}

impl CountOp {
    /// The count after the operation found it at `before`.
    pub open spec fn leaves(self, before: i32) -> i32 {
        match self {
            CountOp::Load => before,
            CountOp::Store(count) => count,
            CountOp::Add => before.wrapping_add(1),
            CountOp::Sub => before.wrapping_sub(1),
        }
    }

    /// The count after the operation found it at `before`.
    pub fn result(&self, before: i32) -> (after: i32)
        ensures
            after == self.leaves(before),
    {
        match self {
            CountOp::Load => before,
            CountOp::Store(count) => *count,
            CountOp::Add => before.wrapping_add(1),
            CountOp::Sub => before.wrapping_sub(1),
        }
    }
}

/// One thing a pool operation asks of the holder of the region.
#[derive(Debug, Clone, Copy)]
pub enum Action {
    /// Perform the atomic operation on a 32-bit word of the region.
    Word(CellOp),
    /// Perform the atomic operation on the reference count of slot `index`.
    Count { index: u32, op: CountOp },
    /// Read the storage kind of slot `index`.
    LoadKind { index: u32 },
    /// Read what an import of device buffer `index` needs: the IPC handle,
    /// then the device ordinal and the size.
    LoadDevice { index: u32 },
    /// Write the record of a new buffer in slot `index`: the index itself as
    /// the id, a reference count of one, the storage kind, the device
    /// ordinal and the length in bytes, in this order, each with a store of
    /// its own.
    WriteRecord { index: u32, kind: StorageType, device: u8, length: u64 },
    /// Copy the IPC handle into the record of slot `index`, byte for byte.
    WriteHandle { index: u32, handle: CudaIpcHandle },
    /// Create the data region of host buffer `index`, `size` bytes long and
    /// zero-filled, and map it; the creation fails if the name is taken.
    CreateRegion { index: u32, size: usize },
    /// Map the data region of host buffer `index`.
    OpenRegion { index: u32 },
    /// Allocate `size` zeroed bytes on device `device_id`.
    AllocZeroed { device_id: i32, size: usize },
    /// Export the IPC handle of the device allocation at `ptr`.
    ExportHandle { ptr: u64 },
    /// Import `handle` on device `device_id`, with lazy peer access if
    /// `lazy_peer` says so.
    ImportHandle { device_id: i32, handle: CudaIpcHandle, lazy_peer: bool },
    /// Free the device allocation at `ptr`.
    FreeDevice { ptr: u64 },
}

impl Action {
    /// The memory ordering of the loads and stores that the action performs
    /// on a record: every one of them is sequentially consistent.  An
    /// operation on a word carries its own orderings, the copy of a handle
    /// is no atomic operation, and work on the memory of a buffer touches
    /// no record.
    pub open spec fn ordering(self) -> Option<MemOrder> {
        match self {
            Action::Count { .. } => Some(MemOrder::SeqCst),
            Action::LoadKind { .. } => Some(MemOrder::SeqCst),
            Action::LoadDevice { .. } => Some(MemOrder::SeqCst),
            Action::WriteRecord { .. } => Some(MemOrder::SeqCst),
            _ => None,
        }
    }

    /// The memory ordering of the loads and stores that the action performs
    /// on a record, if it performs any.
    pub fn order(&self) -> (o: Option<MemOrder>)
        ensures
            o == self.ordering(),
    {
        match self {
            Action::Count { .. } => Some(MemOrder::SeqCst),
            Action::LoadKind { .. } => Some(MemOrder::SeqCst),
            Action::LoadDevice { .. } => Some(MemOrder::SeqCst),
            Action::WriteRecord { .. } => Some(MemOrder::SeqCst),
            _ => None,
        }
    }
}

/// What came of an action.  Where the operating system or the driver
/// refused, the event carries the text of the refusal.
#[derive(Debug)]
pub enum Event {
    /// The reply to an operation on a word.
    Word(CellReply),
    /// The reference count as the operation found it.
    Count(i32),
    /// The storage kind byte that was read.
    Kind(u8),
    /// What was read for an import.
    Device { device: u8, size: u64, handle: CudaIpcHandle },
    /// The record or the handle was written.
    Written,
    /// The length in bytes of the region that was created or opened and is
    /// mapped now.
    Region(Result<usize, String>),
    /// The address of the device memory that was allocated or imported.
    Pointer(Result<u64, String>),
    /// The IPC handle that was exported.
    Handle(Result<CudaIpcHandle, String>),
    /// The device memory was given back, or the driver failed to take it.
    Released,
}

/// Name of the data region of host buffer `index` in the pool called `pool`:
/// the pool's name, `_buf_`, and the index in decimal.
pub open spec fn buffer_region_name(pool: Seq<char>, index: u32) -> Seq<char> {
    pool + "_buf_"@ + decimal(index as nat)
}

/// Name of the data region of host buffer `index` in the pool called `pool`.
pub fn buffer_name(pool: &str, index: u32) -> (n: String)
    ensures
        n@ == buffer_region_name(pool@, index),
{
    let mut n = String::from_str(pool);
    n.append("_buf_");
    append_decimal(&mut n, index);
    n
}

/// `data` is the data region of host buffer `index` in the pool called
/// `pool`, `size` bytes long, created by this process or not.
pub open spec fn host_backing(
    data: BufferData,
    pool: Seq<char>,
    index: u32,
    size: usize,
    owner: bool,
) -> bool {
    &&& data matches BufferData::Cpu(shm)
    &&& shm.spec_name() == buffer_region_name(pool, index)
    &&& shm.spec_size() == size
    &&& shm.spec_owner() == owner
}

/// `data` is `size` bytes on device `device_id` that the driver put at
/// `ptr`, shared as `handle`, imported by this process or not.
pub open spec fn device_backing(
    data: BufferData,
    device_id: i32,
    ptr: u64,
    size: usize,
    handle: CudaIpcHandle,
    imported: bool,
) -> bool {
    &&& data matches BufferData::Cuda(buf)
    &&& buf.spec_device_id() == device_id
    &&& buf.spec_ptr() == ptr
    &&& buf.spec_size() == size
    &&& buf.spec_ipc_handle() == handle
    &&& buf.spec_imported() == imported
}

/// `guard` is a fresh handle of slot `index` with access `mode`: it holds a
/// backing and owes the slot one release.
pub open spec fn fresh_handle(guard: BufferGuard, index: u32, mode: AccessMode) -> bool {
    &&& guard.index() == index
    &&& guard.access() == mode
    &&& guard.backing() is Some
    &&& guard.owes_release()
}

/// Detail of the error that ends an operation when it is handed an event
/// that its last action cannot have brought about.
pub const UNEXPECTED: &'static str = "unexpected event";

/// One step of a pool operation: the next action with the state to resume
/// in, or the result.
#[derive(Debug)]
pub enum Move<S, T> {
    Run { state: S, action: Action },
    Done(T),
}

/// Starts an operation on the reference count of slot `index` in a pool of
/// `capacity` slots.
///
/// An index that is not below the capacity ends it with `BufferNotFound`
/// before anything is touched.
pub fn count_start(index: u32, capacity: u32, op: CountOp) -> (step: Move<CountOp, Result<
    i32,
    Error,
>>)
    ensures
        if index < capacity {
            step matches Move::Run { state, action } && state == op && action == (Action::Count {
                index,
                op,
            })
        } else {
            step == Move::<CountOp, Result<i32, Error>>::Done(Err(Error::BufferNotFound(index)))
        },
{
    if index >= capacity {
        Move::Done(Err(Error::BufferNotFound(index)))
    } else {
        Move::Run { state: op, action: Action::Count { index, op } }
    }
}

/// Ends an operation on a reference count: the result is the count that the
/// operation left.  An event that is no count ends it with `SharedMemory`.
pub fn count_next(state: CountOp, event: Event) -> (step: Move<CountOp, Result<i32, Error>>)
    ensures
        match event {
            Event::Count(before) => step == Move::<CountOp, Result<i32, Error>>::Done(
                Ok(state.leaves(before)),
            ),
            _ => step matches Move::Done(Err(e)) && e.is_shared_memory(UNEXPECTED@),
        },
{
    match event {
        Event::Count(before) => Move::Done(Ok(state.result(before))),
        _ => Move::Done(Err(Error::shared_memory(UNEXPECTED))),
    }
}

/// Where an attempt to reclaim a slot stands.
#[derive(Debug, Clone, Copy, PartialEq, Eq, Structural)]
pub enum ReclaimState {
    /// The load of the reference count.
    Counting,
    /// The release of the slot, as far as it has come.
    Freeing(FreeState),
}

/// `step` carries the release of slot `index` on inside a reclaim: a running
/// release keeps running, a finished one ends the reclaim with `true`, and
/// an index outside the region ends it with `BufferNotFound`.
pub open spec fn reclaim_lifts(
    inner: Step<FreeState, FreeOutcome>,
    step: Move<ReclaimState, Result<bool, Error>>,
) -> bool {
    match inner {
        Step::Run { state, op } => step matches Move::Run { state: s, action } && s
            == ReclaimState::Freeing(state) && action == Action::Word(op),
        Step::Done(FreeOutcome::Freed) => step == Move::<
            ReclaimState,
            Result<bool, Error>,
        >::Done(Ok(true)),
        Step::Done(FreeOutcome::NotFound(i)) => step == Move::<
            ReclaimState,
            Result<bool, Error>,
        >::Done(Err(Error::BufferNotFound(i))),
    }
}

fn reclaim_lift(inner: Step<FreeState, FreeOutcome>) -> (step: Move<
    ReclaimState,
    Result<bool, Error>,
>)
    ensures
        reclaim_lifts(inner, step),
{
    match inner {
        Step::Run { state, op } => Move::Run {
            state: ReclaimState::Freeing(state),
            action: Action::Word(op),
        },
        Step::Done(FreeOutcome::Freed) => Move::Done(Ok(true)),
        Step::Done(FreeOutcome::NotFound(i)) => Move::Done(Err(Error::BufferNotFound(i))),
    }
}

/// Starts an attempt to reclaim slot `index` in a pool of `capacity` slots:
/// the index is checked, then the reference count is read.
pub fn reclaim_start(index: u32, capacity: u32) -> (step: Move<ReclaimState, Result<bool, Error>>)
    ensures
        if index < capacity {
            step matches Move::Run { state, action } && state == ReclaimState::Counting
                && action == (Action::Count { index, op: CountOp::Load })
        } else {
            step == Move::<ReclaimState, Result<bool, Error>>::Done(
                Err(Error::BufferNotFound(index)),
            )
        },
{
    if index >= capacity {
        Move::Done(Err(Error::BufferNotFound(index)))
    } else {
        Move::Run {
            state: ReclaimState::Counting,
            action: Action::Count { index, op: CountOp::Load },
        }
    }
}

/// Continues an attempt to reclaim slot `index`.
///
/// A count above zero ends it with `false`: the slot stays allocated.  A
/// count of zero or less starts the release of the slot, and the attempt
/// ends with `true` when the release has ended.  An event that the state
/// does not wait for ends it with `SharedMemory`.
pub fn reclaim_next(state: ReclaimState, event: Event, index: u32, capacity: u32) -> (step: Move<
    ReclaimState,
    Result<bool, Error>,
>)
    ensures
        match (state, event) {
            (ReclaimState::Counting, Event::Count(count)) => if count <= 0 {
                reclaim_lifts(free_first(index, capacity), step)
            } else {
                step == Move::<ReclaimState, Result<bool, Error>>::Done(Ok(false))
            },
            (ReclaimState::Freeing(inner), Event::Word(reply)) => reclaim_lifts(
                free_then(inner, reply, index),
                step,
            ),
            _ => step matches Move::Done(Err(e)) && e.is_shared_memory(UNEXPECTED@),
        },
{
    match (state, event) {
        (ReclaimState::Counting, Event::Count(count)) => {
            if count <= 0 {
                reclaim_lift(free_start(index, capacity))
            } else {
                Move::Done(Ok(false))
            }
        },
        (ReclaimState::Freeing(inner), Event::Word(reply)) => reclaim_lift(
            free_next(inner, reply, index),
        ),
        _ => Move::Done(Err(Error::shared_memory(UNEXPECTED))),
    }
}

/// Where getting a handle of an existing buffer stands.
#[derive(Debug, Clone, Copy, PartialEq, Eq)]
pub enum GetState {
    /// The increment of the reference count.
    Counting,
    /// The load of the storage kind.
    Kind,
    /// The opening of the host data region.
    Opening,
    /// The load of what the import needs.
    Describing,
    /// The import of the device buffer that was read to be `size` bytes on
    /// device `device`, shared as `handle`.
    Importing { device: u8, size: u64, handle: CudaIpcHandle },
}

/// Starts getting a handle of the buffer in slot `index` of a pool of
/// `capacity` slots: the index is checked, then the slot gains a reference.
pub fn get_start(index: u32, capacity: u32) -> (step: Move<GetState, Result<BufferGuard, Error>>)
    ensures
        if index < capacity {
            step matches Move::Run { state, action } && state == GetState::Counting && action
                == (Action::Count { index, op: CountOp::Add })
        } else {
            step == Move::<GetState, Result<BufferGuard, Error>>::Done(
                Err(Error::BufferNotFound(index)),
            )
        },
{
    if index >= capacity {
        Move::Done(Err(Error::BufferNotFound(index)))
    } else {
        Move::Run { state: GetState::Counting, action: Action::Count { index, op: CountOp::Add } }
    }
}

/// What follows `state` in getting slot `index` of the pool called `pool`
/// with access `mode`, once its action has brought `event` about.
///
/// With the reference taken, the storage kind is read.  A byte that is no
/// storage kind ends the operation with `SharedMemory`.  A host buffer has
/// its data region opened, and the handle holds the region as long as it
/// was found to be; a device buffer has its handle, device and size read
/// and is imported with lazy peer access, and the handle holds the import
/// at the address the driver gave for it.
/// A refusal to open ends the operation with `SharedMemory`, a refusal to
/// import with `Cuda`, each with the text of the refusal.  The reference
/// that was taken stays taken in every case.  An event that the state does
/// not wait for ends the operation with `SharedMemory`.
pub open spec fn get_then(
    state: GetState,
    event: Event,
    pool: Seq<char>,
    index: u32,
    mode: AccessMode,
    step: Move<GetState, Result<BufferGuard, Error>>,
) -> bool {
    match (state, event) {
        (GetState::Counting, Event::Count(_)) => step matches Move::Run { state: s, action } && s
            == GetState::Kind && action == (Action::LoadKind { index }),
        (GetState::Kind, Event::Kind(kind)) => if kind == StorageType::Cpu.code() {
            step matches Move::Run { state: s, action } && s == GetState::Opening && action
                == (Action::OpenRegion { index })
        } else if kind == StorageType::Cuda.code() {
            step matches Move::Run { state: s, action } && s == GetState::Describing && action
                == (Action::LoadDevice { index })
        } else {
            step matches Move::Done(Err(e)) && e.is_shared_memory("invalid storage type"@)
        },
        (GetState::Opening, Event::Region(Ok(len))) => {
            &&& step matches Move::Done(Ok(guard))
            &&& fresh_handle(guard, index, mode)
            &&& host_backing(guard.backing()->0, pool, index, len, false)
        },
        (GetState::Opening, Event::Region(Err(detail))) => step matches Move::Done(Err(e))
            && e.is_shared_memory(detail@),
        (GetState::Describing, Event::Device { device, size, handle }) => step matches Move::Run {
            state: s,
            action,
        } && s == (GetState::Importing { device, size, handle }) && action
            == (Action::ImportHandle { device_id: device as i32, handle, lazy_peer: true }),
        (GetState::Importing { device, size, handle }, Event::Pointer(Ok(ptr))) => {
            &&& step matches Move::Done(Ok(guard))
            &&& fresh_handle(guard, index, mode)
            &&& device_backing(
                guard.backing()->0,
                device as i32,
                ptr,
                size as usize,
                handle,
                true,
            )
        },
        (GetState::Importing { .. }, Event::Pointer(Err(detail))) => step matches Move::Done(
            Err(Error::Cuda(text)),
        ) && text@ == detail@,
        _ => step matches Move::Done(Err(e)) && e.is_shared_memory(UNEXPECTED@),
    }
}

/// Continues getting a handle of the buffer in slot `index` of the pool
/// called `pool` with access `mode`.
pub fn get_next(state: GetState, event: Event, pool: &str, index: u32, mode: AccessMode) -> (step:
    Move<GetState, Result<BufferGuard, Error>>)
    ensures
        get_then(state, event, pool@, index, mode, step),
{
    match (state, event) {
        (GetState::Counting, Event::Count(_)) => Move::Run {
            state: GetState::Kind,
            action: Action::LoadKind { index },
        },
        (GetState::Kind, Event::Kind(kind)) => match StorageType::from_u8(kind) {
            Some(StorageType::Cpu) => Move::Run {
                state: GetState::Opening,
                action: Action::OpenRegion { index },
            },
            Some(StorageType::Cuda) => Move::Run {
                state: GetState::Describing,
                action: Action::LoadDevice { index },
            },
            None => Move::Done(Err(Error::shared_memory("invalid storage type"))),
        },
        (GetState::Opening, Event::Region(Ok(len))) => {
            let name = buffer_name(pool, index);
            let shm = SharedMemory::open(name.as_str(), len);
            Move::Done(Ok(BufferGuard::new(BufferData::Cpu(shm), index, mode)))
        },
        (GetState::Opening, Event::Region(Err(detail))) => Move::Done(
            Err(Error::SharedMemory(detail)),
        ),
        (GetState::Describing, Event::Device { device, size, handle }) => Move::Run {
            state: GetState::Importing { device, size, handle },
            action: Action::ImportHandle { device_id: device as i32, handle, lazy_peer: true },
        },
        (GetState::Importing { device, size, handle }, Event::Pointer(Ok(ptr))) => {
            let len = #[verifier::truncate]
            (size as usize);
            let buf = CudaBuffer::from_ipc_handle(device as i32, ptr, &handle, len);
            Move::Done(Ok(BufferGuard::new(BufferData::Cuda(buf), index, mode)))
        },
        (GetState::Importing { .. }, Event::Pointer(Err(detail))) => Move::Done(
            Err(Error::Cuda(detail)),
        ),
        _ => Move::Done(Err(Error::shared_memory(UNEXPECTED))),
    }
}

/// What kind of buffer an acquisition is for.
#[derive(Debug, Clone, Copy, PartialEq, Eq, Structural)]
pub enum Request {
    /// A host buffer of `size` bytes.
    Cpu { size: usize },
    /// A device buffer of `size` bytes on device `device_id`.
    Cuda { size: usize, device_id: i32 },
}

impl Request {
    /// Length of the buffer asked for.
    pub open spec fn len(self) -> usize {
        match self {
            Request::Cpu { size } => size,
            Request::Cuda { size, .. } => size,
        }
    }

    /// The action that brings the memory of the buffer about, once slot
    /// `index` is allocated for it.
    pub open spec fn provision(self, index: u32) -> Action {
        match self {
            Request::Cpu { size } => Action::CreateRegion { index, size },
            Request::Cuda { size, device_id } => Action::AllocZeroed { device_id, size },
        }
    }

    /// The action that writes the record of the buffer in slot `index`: host
    /// storage with device 0, or device storage with the low byte of the
    /// device ordinal.
    pub open spec fn record(self, index: u32) -> Action {
        match self {
            Request::Cpu { size } => Action::WriteRecord {
                index,
                kind: StorageType::Cpu,
                device: 0,
                length: size as u64,
            },
            Request::Cuda { size, device_id } => Action::WriteRecord {
                index,
                kind: StorageType::Cuda,
                device: device_id as u8,
                length: size as u64,
            },
        }
    }
}

/// Where an acquisition stands.
#[derive(Debug)]
pub enum AcquireState {
    /// The allocation of the slot, as far as it has come.
    Allocating(AllocState),
    /// The creation of the data region, or the allocation of the device
    /// memory, for slot `index`.
    Providing { index: u32 },
    /// The export of the handle of the device memory at `ptr`, allocated
    /// for slot `index`.
    Exporting { index: u32, ptr: u64 },
    /// The return of device memory whose handle the driver did not export,
    /// for the reason `detail`.
    Abandoning { detail: String },
    /// The write of the record of slot `index`, with the backing in hand.
    Writing { index: u32, data: BufferData },
    /// The copy of the IPC handle into the record of slot `index`.
    Sharing { index: u32, data: BufferData },
}

/// `step` carries the allocation on inside an acquisition for `request`: a
/// running allocation keeps running, a slot that was won has its memory
/// brought about next, and a failed allocation ends the acquisition with
/// its error.
pub open spec fn acquire_lifts(
    inner: Step<AllocState, AllocOutcome>,
    request: Request,
    step: Move<AcquireState, Result<BufferGuard, Error>>,
) -> bool {
    match inner {
        Step::Run { state, op } => step matches Move::Run { state: s, action } && s
            == AcquireState::Allocating(state) && action == Action::Word(op),
        Step::Done(AllocOutcome::Slot(index)) => step matches Move::Run { state: s, action } && s
            == (AcquireState::Providing { index }) && action == request.provision(index),
        Step::Done(AllocOutcome::Full) => step matches Move::Done(Err(e)) && e.is_shared_memory(
            "metadata region full"@,
        ),
        Step::Done(AllocOutcome::NotFound(head)) => step == Move::<
            AcquireState,
            Result<BufferGuard, Error>,
        >::Done(Err(Error::BufferNotFound(head))),
    }
}

fn acquire_lift(inner: Step<AllocState, AllocOutcome>, request: Request) -> (step: Move<
    AcquireState,
    Result<BufferGuard, Error>,
>)
    ensures
        acquire_lifts(inner, request, step),
{
    match inner {
        Step::Run { state, op } => Move::Run {
            state: AcquireState::Allocating(state),
            action: Action::Word(op),
        },
        Step::Done(AllocOutcome::Slot(index)) => {
            let action = match request {
                Request::Cpu { size } => Action::CreateRegion { index, size },
                Request::Cuda { size, device_id } => Action::AllocZeroed { device_id, size },
            };
            Move::Run { state: AcquireState::Providing { index }, action }
        },
        Step::Done(AllocOutcome::Full) => Move::Done(Err(Error::region_full())),
        Step::Done(AllocOutcome::NotFound(head)) => Move::Done(Err(Error::BufferNotFound(head))),
    }
}

fn record_action(request: Request, index: u32) -> (action: Action)
    ensures
        action == request.record(index),
{
    match request {
        Request::Cpu { size } => Action::WriteRecord {
            index,
            kind: StorageType::Cpu,
            device: 0,
            length: size as u64,
        },
        Request::Cuda { size, device_id } => Action::WriteRecord {
            index,
            kind: StorageType::Cuda,
            device: #[verifier::truncate]
            (device_id as u8),
            length: size as u64,
        },
    }
}

/// Starts an acquisition: a slot is allocated first.
pub fn acquire_start(request: Request) -> (step: Move<AcquireState, Result<BufferGuard, Error>>)
    ensures
        acquire_lifts(alloc_first(), request, step),
{
    acquire_lift(alloc_start(), request)
}

/// `step` ends the acquisition with a read-write handle of slot `index`
/// over `data`.
pub open spec fn hands_out(
    step: Move<AcquireState, Result<BufferGuard, Error>>,
    index: u32,
    data: BufferData,
) -> bool {
    &&& step matches Move::Done(Ok(guard))
    &&& fresh_handle(guard, index, AccessMode::ReadWrite)
    &&& guard.backing() == Some(data)
}

/// What follows `state` in an acquisition for `request` in a pool of
/// `capacity` slots called `pool`, once its action has brought `event`
/// about.
///
/// Once a slot is allocated the memory is brought about.  For a host buffer
/// the data region is created under the buffer's name; for a device buffer
/// the memory is allocated and its handle exported, and memory whose handle
/// the driver does not export is freed again.  A refusal ends the
/// acquisition, with `SharedMemory` for the region and `Cuda` for the
/// device, each with the text of the refusal; the slot stays allocated.
/// With the memory in hand the record is written, for a device buffer the
/// handle is copied into it, and the result is a read-write handle of the
/// slot over the memory, for a device buffer at the address the driver
/// allocated it at.  An event that the state does not wait for ends
/// the acquisition with `SharedMemory`.
pub open spec fn acquire_then(
    state: AcquireState,
    event: Event,
    request: Request,
    pool: Seq<char>,
    capacity: u32,
    step: Move<AcquireState, Result<BufferGuard, Error>>,
) -> bool {
    let unexpected = step matches Move::Done(Err(e)) && e.is_shared_memory(UNEXPECTED@);
    match (state, event) {
        (AcquireState::Allocating(inner), Event::Word(reply)) => acquire_lifts(
            alloc_then(inner, reply, capacity),
            request,
            step,
        ),
        (AcquireState::Providing { index }, Event::Region(made)) => match (request, made) {
            (Request::Cpu { size }, Ok(_)) => step matches Move::Run {
                state: AcquireState::Writing { index: i, data },
                action,
            } && i == index && action == request.record(index) && host_backing(
                data,
                pool,
                index,
                size,
                true,
            ),
            (Request::Cpu { .. }, Err(detail)) => step matches Move::Done(Err(e))
                && e.is_shared_memory(detail@),
            _ => unexpected,
        },
        (AcquireState::Providing { index }, Event::Pointer(made)) => match (request, made) {
            (Request::Cuda { .. }, Ok(ptr)) => step matches Move::Run { state: s, action } && s
                == (AcquireState::Exporting { index, ptr }) && action == (Action::ExportHandle {
                ptr,
            }),
            (Request::Cuda { .. }, Err(detail)) => step matches Move::Done(Err(Error::Cuda(text)))
                && text@ == detail@,
            _ => unexpected,
        },
        (AcquireState::Exporting { index, ptr }, Event::Handle(made)) => match (request, made) {
            (Request::Cuda { size, device_id }, Ok(handle)) => step matches Move::Run {
                state: AcquireState::Writing { index: i, data },
                action,
            } && i == index && action == request.record(index) && device_backing(
                data,
                device_id,
                ptr,
                size,
                handle,
                false,
            ),
            (Request::Cuda { .. }, Err(detail)) => step matches Move::Run {
                state: AcquireState::Abandoning { detail: kept },
                action,
            } && kept@ == detail@ && action == (Action::FreeDevice { ptr }),
            _ => unexpected,
        },
        (AcquireState::Abandoning { detail }, Event::Released) => step matches Move::Done(
            Err(Error::Cuda(text)),
        ) && text@ == detail@,
        (AcquireState::Writing { index, data }, Event::Written) => match data {
            BufferData::Cpu(_) => hands_out(step, index, data),
            BufferData::Cuda(buf) => step matches Move::Run { state: s, action } && s
                == (AcquireState::Sharing { index, data }) && action == (Action::WriteHandle {
                index,
                handle: buf.spec_ipc_handle(),
            }),
        },
        (AcquireState::Sharing { index, data }, Event::Written) => hands_out(step, index, data),
        _ => unexpected,
    }
}

/// Continues an acquisition for `request` in a pool of `capacity` slots
/// called `pool`.
pub fn acquire_next(
    state: AcquireState,
    event: Event,
    request: Request,
    pool: &str,
    capacity: u32,
) -> (step: Move<AcquireState, Result<BufferGuard, Error>>)
    ensures
        acquire_then(state, event, request, pool@, capacity, step),
{
    match (state, event) {
        (AcquireState::Allocating(inner), Event::Word(reply)) => acquire_lift(
            alloc_next(inner, reply, capacity),
            request,
        ),
        (AcquireState::Providing { index }, Event::Region(made)) => match (request, made) {
            (Request::Cpu { size }, Ok(_)) => {
                let name = buffer_name(pool, index);
                let shm = SharedMemory::create(name.as_str(), size);
                Move::Run {
                    state: AcquireState::Writing { index, data: BufferData::Cpu(shm) },
                    action: record_action(request, index),
                }
            },
            (Request::Cpu { .. }, Err(detail)) => Move::Done(Err(Error::SharedMemory(detail))),
            _ => Move::Done(Err(Error::shared_memory(UNEXPECTED))),
        },
        (AcquireState::Providing { index }, Event::Pointer(made)) => match (request, made) {
            (Request::Cuda { .. }, Ok(ptr)) => Move::Run {
                state: AcquireState::Exporting { index, ptr },
                action: Action::ExportHandle { ptr },
            },
            (Request::Cuda { .. }, Err(detail)) => Move::Done(Err(Error::Cuda(detail))),
            _ => Move::Done(Err(Error::shared_memory(UNEXPECTED))),
        },
        (AcquireState::Exporting { index, ptr }, Event::Handle(made)) => match (request, made) {
            (Request::Cuda { size, device_id }, Ok(handle)) => {
                let buf = CudaBuffer::allocate(device_id, ptr, size, handle);
                Move::Run {
                    state: AcquireState::Writing { index, data: BufferData::Cuda(buf) },
                    action: record_action(request, index),
                }
            },
            (Request::Cuda { .. }, Err(detail)) => Move::Run {
                state: AcquireState::Abandoning { detail },
                action: Action::FreeDevice { ptr },
            },
            _ => Move::Done(Err(Error::shared_memory(UNEXPECTED))),
        },
        (AcquireState::Abandoning { detail }, Event::Released) => Move::Done(
            Err(Error::Cuda(detail)),
        ),
        (AcquireState::Writing { index, data }, Event::Written) => {
            let handle = match &data {
                BufferData::Cpu(_) => None,
                BufferData::Cuda(buf) => Some(*buf.ipc_handle()),
            };
            match handle {
                None => Move::Done(Ok(BufferGuard::new(data, index, AccessMode::ReadWrite))),
                Some(handle) => Move::Run {
                    state: AcquireState::Sharing { index, data },
                    action: Action::WriteHandle { index, handle },
                },
            }
        },
        (AcquireState::Sharing { index, data }, Event::Written) => Move::Done(
            Ok(BufferGuard::new(data, index, AccessMode::ReadWrite)),
        ),
        _ => Move::Done(Err(Error::shared_memory(UNEXPECTED))),
    }
}

/// Where a preallocation stands: the slots acquired so far with one more
/// acquisition to make, or the result.
#[derive(Debug)]
pub enum Warm {
    More(Vec<u32>),
    Done(Result<Vec<u32>, Error>),
}

/// Starts the preallocation of `count` buffers: with none to acquire the
/// result is the empty list, else the first acquisition is due.
pub fn preallocate_start(count: usize) -> (step: Warm)
    ensures
        if count == 0 {
            step matches Warm::Done(Ok(indices)) && indices@ == Seq::<u32>::empty()
        } else {
            step matches Warm::More(indices) && indices@ == Seq::<u32>::empty()
        },
{
    if count == 0 {
        Warm::Done(Ok(Vec::new()))
    } else {
        Warm::More(Vec::new())
    }
}

/// Continues the preallocation of `count` buffers, of which `indices` are
/// acquired, with the outcome of one more acquisition.
///
/// A failed acquisition ends the preallocation with its error.  The handle
/// of a buffer that was acquired is given up at once, so that the slot
/// keeps its one reference, and its slot is put behind the others; with
/// `count` slots the preallocation ends with their list.
pub fn preallocate_next(indices: Vec<u32>, acquired: Result<BufferGuard, Error>, count: usize) -> (step:
    Warm)
    ensures
        match acquired {
            Err(e) => step == Warm::Done(Err(e)),
            Ok(guard) => if indices@.len() + 1 >= count {
                step matches Warm::Done(Ok(all)) && all@ == indices@.push(guard.index())
            } else {
                step matches Warm::More(all) && all@ == indices@.push(guard.index())
            },
        },
{
    match acquired {
        Err(e) => Warm::Done(Err(e)),
        Ok(guard) => {
            let mut all = indices;
            all.push(guard.meta_index());
            let _ = guard.forget();
            if all.len() >= count {
                Warm::Done(Ok(all))
            } else {
                Warm::More(all)
            }
        },
    }
}

} // verus!
