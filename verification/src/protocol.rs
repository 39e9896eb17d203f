//! The lock-free slot protocols, one atomic operation at a time.
//!
//! The words of the metadata region are shared with other processes, so a
//! protocol cannot run as one piece of code over plain memory.  Each protocol
//! is therefore a step function: given where the protocol stands and what the
//! last atomic operation returned, it names the next operation or the result.
//! Whoever holds the region performs the operations, in order, with the
//! memory orderings they carry.

use crate::error::Error;
use crate::meta::{record_start, Field, HeaderField};
use vstd::prelude::*;

verus! {

/// Value of `free_head`, and of a slot's link, that ends the free list.
pub const EMPTY: u32 = 0xFFFF_FFFF;

/// Memory ordering of one atomic operation.
#[derive(Debug, Clone, Copy, PartialEq, Eq, Structural)]
pub enum MemOrder {
    Acquire,
    Release,
    AcqRel,
    SeqCst,
}

/// An atomic 32-bit word of the region that the slot protocols touch.
#[derive(Debug, Clone, Copy, PartialEq, Eq, Structural)]
pub enum Cell {
    /// The bump cursor of the header.
    NextId,
    /// The count of allocated slots in the header.
    Allocated,
    /// The head of the free list in the header.
    FreeHead,
    /// The free-list link of the slot with the given index.
    NextFree(u32),
}

impl Cell {
    /// Byte offset of the word from the start of the region.
    pub open spec fn position(self) -> nat {
        match self {
            Cell::NextId => HeaderField::NextId.start(),
            Cell::Allocated => HeaderField::Allocated.start(),
            Cell::FreeHead => HeaderField::FreeHead.start(),
            Cell::NextFree(i) => record_start(i) + Field::NextFree.start(),
        }
    }

    /// Byte offset of the word from the start of the region.
    pub fn offset(&self) -> (o: u64)
        ensures
            o == self.position(),
    {
        match self {
            Cell::NextId => 12,
            Cell::Allocated => 16,
            Cell::FreeHead => 20,
            Cell::NextFree(i) => 328 + (*i as u64) * 360,
        }
    }
}

/// One atomic operation on a cell.
#[derive(Debug, Clone, Copy, PartialEq, Eq, Structural)]
pub enum CellOp {
    /// Read the word.
    Load { cell: Cell, order: MemOrder },
    /// Write `value` to the word.
    Store { cell: Cell, value: u32, order: MemOrder },
    /// Write `new` if the word holds `current`; may be a weak exchange.
    CompareExchange { cell: Cell, current: u32, new: u32, success: MemOrder, failure: MemOrder },
    /// Add `value`, wrapping, and return what the word held.
    FetchAdd { cell: Cell, value: u32, order: MemOrder },
    /// Subtract `value`, wrapping, and return what the word held.
    FetchSub { cell: Cell, value: u32, order: MemOrder },
}

impl CellOp {
    /// The word the operation works on.
    pub open spec fn target(self) -> Cell {
        match self {
            CellOp::Load { cell, .. } => cell,
            CellOp::Store { cell, .. } => cell,
            CellOp::CompareExchange { cell, .. } => cell,
            CellOp::FetchAdd { cell, .. } => cell,
            CellOp::FetchSub { cell, .. } => cell,
        }
    }

    /// The word the operation works on.
    pub fn cell(&self) -> (c: Cell)
        ensures
            c == self.target(),
    {
        match self {
            CellOp::Load { cell, .. } => *cell,
            CellOp::Store { cell, .. } => *cell,
            CellOp::CompareExchange { cell, .. } => *cell,
            CellOp::FetchAdd { cell, .. } => *cell,
            CellOp::FetchSub { cell, .. } => *cell,
        }
    }
}

/// What an atomic operation hands back.
///
/// `value` is what the word held before the operation, or for a store what
/// was written.  `done` is false only for a compare-exchange that wrote
/// nothing.
#[derive(Debug, Clone, Copy, PartialEq, Eq, Structural)]
pub struct CellReply {
    pub done: bool,
    pub value: u32,
}

/// One step of a protocol: the next operation with the state to resume in,
/// or the result.
#[derive(Debug)]
pub enum Step<S, T> {
    Run { state: S, op: CellOp },
    Done(T),
}

/// How an allocation ends.
#[derive(Debug, Clone, Copy, PartialEq, Eq, Structural)]
pub enum AllocOutcome {
    /// The slot with this index is now the caller's.
    Slot(u32),
    /// No slot is free and the bump cursor has reached the capacity.
    Full,
    /// The free list led to an index outside the region.
    NotFound(u32),
}

impl AllocOutcome {
    /// `r` is the result an allocation with this outcome returns: the index
    /// of the slot, or `SharedMemory` for a full region, or `BufferNotFound`
    /// for a free list that leaves the region.
    pub open spec fn yields(self, r: Result<u32, Error>) -> bool {
        match self {
            AllocOutcome::Slot(i) => r == Ok::<u32, Error>(i),
            AllocOutcome::Full => r matches Err(e) && e.is_shared_memory("metadata region full"@),
            AllocOutcome::NotFound(i) => r == Err::<u32, Error>(Error::BufferNotFound(i)),
        }
    }

    /// The outcome as the result an allocation returns.
    pub fn into_result(self) -> (r: Result<u32, Error>)
        ensures
            self.yields(r),
    {
        match self {
            AllocOutcome::Slot(i) => Ok(i),
            AllocOutcome::Full => Err(Error::region_full()),
            AllocOutcome::NotFound(i) => Err(Error::BufferNotFound(i)),
        }
    }
}

/// Where an allocation stands: which operation it waits for.
#[derive(Debug, Clone, Copy, PartialEq, Eq, Structural)]
pub enum AllocState {
    /// The load of `free_head`.
    Head,
    /// The load of the link of slot `head`, the head just seen.
    Next { head: u32 },
    /// The exchange that swings `free_head` from `head` to its successor.
    Swing { head: u32 },
    /// The increment of the bump cursor.
    Bump,
    /// The decrement that takes back an increment past the capacity.
    Undo,
    /// The increment of the allocation count, after slot `index` was won.
    Count { index: u32 },
}

impl AllocState {
    /// Every slot that the state speaks of is a slot of a region of
    /// `capacity` slots.
    pub open spec fn in_range(self, capacity: u32) -> bool {
        match self {
            AllocState::Next { head } => head < capacity,
            AllocState::Swing { head } => head < capacity,
            AllocState::Count { index } => index < capacity,
            _ => true,
        }
    }
}

/// First step of an allocation: look at the free list.
pub open spec fn alloc_first() -> Step<AllocState, AllocOutcome> {
    Step::Run {
        state: AllocState::Head,
        op: CellOp::Load { cell: Cell::FreeHead, order: MemOrder::Acquire },
    }
}

/// The step that follows `state` once its operation has returned `reply`,
/// in a region of `capacity` slots.
///
/// A free slot is popped from the list if there is one: the head is read,
/// then its link, then `free_head` is swung to the link; a lost exchange
/// starts over.  With an empty list the bump cursor is advanced, and taken
/// back if it had already reached the capacity.  Either way the allocation
/// count is raised last.
pub open spec fn alloc_then(state: AllocState, reply: CellReply, capacity: u32) -> Step<
    AllocState,
    AllocOutcome,
> {
    match state {
        AllocState::Head => if reply.value == EMPTY {
            Step::Run {
                state: AllocState::Bump,
                op: CellOp::FetchAdd { cell: Cell::NextId, value: 1, order: MemOrder::SeqCst },
            }
        } else if reply.value >= capacity {
            Step::Done(AllocOutcome::NotFound(reply.value))
        } else {
            Step::Run {
                state: AllocState::Next { head: reply.value },
                op: CellOp::Load { cell: Cell::NextFree(reply.value), order: MemOrder::Acquire },
            }
        },
        AllocState::Next { head } => Step::Run {
            state: AllocState::Swing { head },
            op: CellOp::CompareExchange {
                cell: Cell::FreeHead,
                current: head,
                new: reply.value,
                success: MemOrder::AcqRel,
                failure: MemOrder::Acquire,
            },
        },
        AllocState::Swing { head } => if reply.done {
            Step::Run {
                state: AllocState::Count { index: head },
                op: CellOp::FetchAdd { cell: Cell::Allocated, value: 1, order: MemOrder::SeqCst },
            }
        } else {
            alloc_first()
        },
        AllocState::Bump => if reply.value >= capacity {
            Step::Run {
                state: AllocState::Undo,
                op: CellOp::FetchSub { cell: Cell::NextId, value: 1, order: MemOrder::SeqCst },
            }
        } else {
            Step::Run {
                state: AllocState::Count { index: reply.value },
                op: CellOp::FetchAdd { cell: Cell::Allocated, value: 1, order: MemOrder::SeqCst },
            }
        },
        AllocState::Undo => Step::Done(AllocOutcome::Full),
        AllocState::Count { index } => Step::Done(AllocOutcome::Slot(index)),
    }
}

/// Starts an allocation.
pub fn alloc_start() -> (step: Step<AllocState, AllocOutcome>)
    ensures
        step == alloc_first(),
{
    Step::Run {
        state: AllocState::Head,
        op: CellOp::Load { cell: Cell::FreeHead, order: MemOrder::Acquire },
    }
}

/// Continues an allocation with the reply to its last operation.
pub fn alloc_next(state: AllocState, reply: CellReply, capacity: u32) -> (step: Step<
    AllocState,
    AllocOutcome,
>)
    ensures
        step == alloc_then(state, reply, capacity),
{
    match state {
        AllocState::Head => {
            if reply.value == EMPTY {
                Step::Run {
                    state: AllocState::Bump,
                    op: CellOp::FetchAdd { cell: Cell::NextId, value: 1, order: MemOrder::SeqCst },
                }
            } else if reply.value >= capacity {
                Step::Done(AllocOutcome::NotFound(reply.value))
            } else {
                Step::Run {
                    state: AllocState::Next { head: reply.value },
                    op: CellOp::Load {
                        cell: Cell::NextFree(reply.value),
                        order: MemOrder::Acquire,
                    },
                }
            }
        },
        AllocState::Next { head } => Step::Run {
            state: AllocState::Swing { head },
            op: CellOp::CompareExchange {
                cell: Cell::FreeHead,
                current: head,
                new: reply.value,
                success: MemOrder::AcqRel,
                failure: MemOrder::Acquire,
            },
        },
        AllocState::Swing { head } => {
            if reply.done {
                Step::Run {
                    state: AllocState::Count { index: head },
                    op: CellOp::FetchAdd {
                        cell: Cell::Allocated,
                        value: 1,
                        order: MemOrder::SeqCst,
                    },
                }
            } else {
                alloc_start()
            }
        },
        AllocState::Bump => {
            if reply.value >= capacity {
                Step::Run {
                    state: AllocState::Undo,
                    op: CellOp::FetchSub { cell: Cell::NextId, value: 1, order: MemOrder::SeqCst },
                }
            } else {
                Step::Run {
                    state: AllocState::Count { index: reply.value },
                    op: CellOp::FetchAdd {
                        cell: Cell::Allocated,
                        value: 1,
                        order: MemOrder::SeqCst,
                    },
                }
            }
        },
        AllocState::Undo => Step::Done(AllocOutcome::Full),
        AllocState::Count { index } => Step::Done(AllocOutcome::Slot(index)),
    }
}

/// How a release of a slot ends.
#[derive(Debug, Clone, Copy, PartialEq, Eq, Structural)]
pub enum FreeOutcome {
    /// The slot is on the free list.
    Freed,
    /// The index names no slot of the region.
    NotFound(u32),
}

impl FreeOutcome {
    /// `r` is the result a release with this outcome returns.
    pub open spec fn yields(self, r: Result<(), Error>) -> bool {
        match self {
            FreeOutcome::Freed => r == Ok::<(), Error>(()),
            FreeOutcome::NotFound(i) => r == Err::<(), Error>(Error::BufferNotFound(i)),
        }
    }

    /// The outcome as the result a release returns.
    pub fn into_result(self) -> (r: Result<(), Error>)
        ensures
            self.yields(r),
    {
        match self {
            FreeOutcome::Freed => Ok(()),
            FreeOutcome::NotFound(i) => Err(Error::BufferNotFound(i)),
        }
    }
}

/// Where a release stands: which operation it waits for.
#[derive(Debug, Clone, Copy, PartialEq, Eq, Structural)]
pub enum FreeState {
    /// The load of `free_head`.
    Head,
    /// The store of `head`, the head just seen, into the slot's link.
    Link { head: u32 },
    /// The exchange that swings `free_head` from `head` to the slot.
    Swing,
    /// The decrement of the allocation count.
    Count,
}

/// First step of releasing slot `index` in a region of `capacity` slots:
/// the index is checked before any word is touched.
pub open spec fn free_first(index: u32, capacity: u32) -> Step<FreeState, FreeOutcome> {
    if index >= capacity {
        Step::Done(FreeOutcome::NotFound(index))
    } else {
        Step::Run {
            state: FreeState::Head,
            op: CellOp::Load { cell: Cell::FreeHead, order: MemOrder::Acquire },
        }
    }
}

/// The step that follows `state` in the release of slot `index` once its
/// operation has returned `reply`.
///
/// The head is read and written into the slot's link before the exchange
/// publishes the slot as the new head; a lost exchange starts over.  The
/// allocation count is lowered last.
pub open spec fn free_then(state: FreeState, reply: CellReply, index: u32) -> Step<
    FreeState,
    FreeOutcome,
> {
    match state {
        FreeState::Head => Step::Run {
            state: FreeState::Link { head: reply.value },
            op: CellOp::Store {
                cell: Cell::NextFree(index),
                value: reply.value,
                order: MemOrder::Release,
            },
        },
        FreeState::Link { head } => Step::Run {
            state: FreeState::Swing,
            op: CellOp::CompareExchange {
                cell: Cell::FreeHead,
                current: head,
                new: index,
                success: MemOrder::AcqRel,
                failure: MemOrder::Acquire,
            },
        },
        FreeState::Swing => if reply.done {
            Step::Run {
                state: FreeState::Count,
                op: CellOp::FetchSub { cell: Cell::Allocated, value: 1, order: MemOrder::SeqCst },
            }
        } else {
            Step::Run {
                state: FreeState::Head,
                op: CellOp::Load { cell: Cell::FreeHead, order: MemOrder::Acquire },
            }
        },
        FreeState::Count => Step::Done(FreeOutcome::Freed),
    }
}

/// Starts the release of slot `index`.
pub fn free_start(index: u32, capacity: u32) -> (step: Step<FreeState, FreeOutcome>)
    ensures
        step == free_first(index, capacity),
{
    if index >= capacity {
        Step::Done(FreeOutcome::NotFound(index))
    } else {
        Step::Run {
            state: FreeState::Head,
            op: CellOp::Load { cell: Cell::FreeHead, order: MemOrder::Acquire },
        }
    }
}

/// Continues the release of slot `index` with the reply to its last
/// operation.
pub fn free_next(state: FreeState, reply: CellReply, index: u32) -> (step: Step<
    FreeState,
    FreeOutcome,
>)
    ensures
        step == free_then(state, reply, index),
{
    match state {
        FreeState::Head => Step::Run {
            state: FreeState::Link { head: reply.value },
            op: CellOp::Store {
                cell: Cell::NextFree(index),
                value: reply.value,
                order: MemOrder::Release,
            },
        },
        FreeState::Link { head } => Step::Run {
            state: FreeState::Swing,
            op: CellOp::CompareExchange {
                cell: Cell::FreeHead,
                current: head,
                new: index,
                success: MemOrder::AcqRel,
                failure: MemOrder::Acquire,
            },
        },
        FreeState::Swing => {
            if reply.done {
                Step::Run {
                    state: FreeState::Count,
                    op: CellOp::FetchSub {
                        cell: Cell::Allocated,
                        value: 1,
                        order: MemOrder::SeqCst,
                    },
                }
            } else {
                Step::Run {
                    state: FreeState::Head,
                    op: CellOp::Load { cell: Cell::FreeHead, order: MemOrder::Acquire },
                }
            }
        },
        FreeState::Count => Step::Done(FreeOutcome::Freed),
    }
}

/// Whatever other parties do to the region in between, an allocation never
/// leaves the region: every link it follows, every exchange it tries and
/// every slot it returns is below the capacity.
pub proof fn lemma_alloc_stays_in_range(state: AllocState, reply: CellReply, capacity: u32)
    requires
        state.in_range(capacity),
    ensures
        alloc_first() matches Step::Run { state: first, .. } && first.in_range(capacity),
        match alloc_then(state, reply, capacity) {
            Step::Run { state: next, op } => next.in_range(capacity) && (op.target() matches Cell::NextFree(
                i,
            ) ==> i < capacity),
            Step::Done(AllocOutcome::Slot(index)) => index < capacity,
            Step::Done(_) => true,
        },
{
}

/// Whatever other parties do to the region in between, an allocation that
/// finds the region full takes its own increment of the bump cursor back
/// before it reports so, and a release touches no link but that of its own
/// slot.
pub proof fn lemma_steps_undo_and_stay_put(reply: CellReply, capacity: u32, index: u32, state: FreeState)
    ensures
        reply.value >= capacity ==> alloc_then(AllocState::Bump, reply, capacity) == (Step::<
            AllocState,
            AllocOutcome,
        >::Run {
            state: AllocState::Undo,
            op: CellOp::FetchSub { cell: Cell::NextId, value: 1, order: MemOrder::SeqCst },
        }),
        alloc_then(AllocState::Undo, reply, capacity) == Step::<AllocState, AllocOutcome>::Done(
            AllocOutcome::Full,
        ),
        free_then(state, reply, index) matches Step::Run { op, .. } ==> (op.target() matches Cell::NextFree(
            i,
        ) ==> i == index),
{
}

} // verus!
