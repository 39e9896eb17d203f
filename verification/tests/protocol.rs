use xmem_core::protocol::{
    alloc_next, alloc_start, free_next, free_start, AllocOutcome, AllocState, Cell, CellOp,
    CellReply, FreeOutcome, FreeState, MemOrder, Step, EMPTY,
};
use xmem_core::Error;

fn reply(value: u32) -> CellReply {
    CellReply { done: true, value }
}

fn lost(value: u32) -> CellReply {
    CellReply { done: false, value }
}

fn run_alloc(step: Step<AllocState, AllocOutcome>) -> (AllocState, CellOp) {
    match step {
        Step::Run { state, op } => (state, op),
        Step::Done(outcome) => panic!("allocation ended early with {:?}", outcome),
    }
}

fn run_free(step: Step<FreeState, FreeOutcome>) -> (FreeState, CellOp) {
    match step {
        Step::Run { state, op } => (state, op),
        Step::Done(outcome) => panic!("release ended early with {:?}", outcome),
    }
}

#[test]
fn allocation_bumps_when_the_free_list_is_empty() {
    let (state, op) = run_alloc(alloc_start());
    assert_eq!(state, AllocState::Head);
    assert_eq!(op, CellOp::Load { cell: Cell::FreeHead, order: MemOrder::Acquire });

    let (state, op) = run_alloc(alloc_next(state, reply(EMPTY), 4));
    assert_eq!(state, AllocState::Bump);
    assert_eq!(op, CellOp::FetchAdd { cell: Cell::NextId, value: 1, order: MemOrder::SeqCst });

    let (state, op) = run_alloc(alloc_next(state, reply(3), 4));
    assert_eq!(state, AllocState::Count { index: 3 });
    assert_eq!(op, CellOp::FetchAdd { cell: Cell::Allocated, value: 1, order: MemOrder::SeqCst });

    match alloc_next(state, reply(3), 4) {
        Step::Done(outcome) => {
            assert_eq!(outcome, AllocOutcome::Slot(3));
            assert_eq!(outcome.into_result(), Ok(3));
        }
        Step::Run { .. } => panic!("allocation goes on after the count"),
    }
}

#[test]
fn allocation_takes_back_a_bump_past_the_capacity() {
    let (state, _) = run_alloc(alloc_start());
    let (state, _) = run_alloc(alloc_next(state, reply(EMPTY), 4));
    // Another allocator may have pushed the cursor even further.
    for seen in [4u32, 5, u32::MAX] {
        let (state, op) = run_alloc(alloc_next(state, reply(seen), 4));
        assert_eq!(state, AllocState::Undo);
        assert_eq!(op, CellOp::FetchSub { cell: Cell::NextId, value: 1, order: MemOrder::SeqCst });
        match alloc_next(state, reply(seen.wrapping_add(1)), 4) {
            Step::Done(outcome) => {
                assert_eq!(outcome, AllocOutcome::Full);
                assert_eq!(
                    outcome.into_result(),
                    Err(Error::SharedMemory("metadata region full".to_string()))
                );
            }
            Step::Run { .. } => panic!("allocation goes on after the undo"),
        }
    }
}

#[test]
fn allocation_pops_the_free_list_and_retries_a_lost_exchange() {
    let (state, _) = run_alloc(alloc_start());

    let (state, op) = run_alloc(alloc_next(state, reply(2), 4));
    assert_eq!(state, AllocState::Next { head: 2 });
    assert_eq!(op, CellOp::Load { cell: Cell::NextFree(2), order: MemOrder::Acquire });

    let (state, op) = run_alloc(alloc_next(state, reply(0), 4));
    assert_eq!(state, AllocState::Swing { head: 2 });
    assert_eq!(
        op,
        CellOp::CompareExchange {
            cell: Cell::FreeHead,
            current: 2,
            new: 0,
            success: MemOrder::AcqRel,
            failure: MemOrder::Acquire,
        }
    );

    // Somebody else took slot 2 first: start over from the head.
    let (state, op) = run_alloc(alloc_next(state, lost(0), 4));
    assert_eq!(state, AllocState::Head);
    assert_eq!(op, CellOp::Load { cell: Cell::FreeHead, order: MemOrder::Acquire });

    let (state, _) = run_alloc(alloc_next(state, reply(0), 4));
    assert_eq!(state, AllocState::Next { head: 0 });
    let (state, op) = run_alloc(alloc_next(state, reply(EMPTY), 4));
    assert_eq!(
        op,
        CellOp::CompareExchange {
            cell: Cell::FreeHead,
            current: 0,
            new: EMPTY,
            success: MemOrder::AcqRel,
            failure: MemOrder::Acquire,
        }
    );
    let (state, op) = run_alloc(alloc_next(state, reply(0), 4));
    assert_eq!(state, AllocState::Count { index: 0 });
    assert_eq!(op, CellOp::FetchAdd { cell: Cell::Allocated, value: 1, order: MemOrder::SeqCst });
    match alloc_next(state, reply(7), 4) {
        Step::Done(outcome) => assert_eq!(outcome, AllocOutcome::Slot(0)),
        Step::Run { .. } => panic!("allocation goes on after the count"),
    }
}

#[test]
fn allocation_stops_at_a_head_outside_the_region() {
    let (state, _) = run_alloc(alloc_start());
    match alloc_next(state, reply(4), 4) {
        Step::Done(outcome) => {
            assert_eq!(outcome, AllocOutcome::NotFound(4));
            assert_eq!(outcome.into_result(), Err(Error::BufferNotFound(4)));
        }
        Step::Run { .. } => panic!("allocation follows a head outside the region"),
    }
}

#[test]
fn release_checks_the_index_first() {
    for (index, capacity) in [(4u32, 4u32), (0, 0), (u32::MAX, 10)] {
        match free_start(index, capacity) {
            Step::Done(outcome) => {
                assert_eq!(outcome, FreeOutcome::NotFound(index));
                assert_eq!(outcome.into_result(), Err(Error::BufferNotFound(index)));
            }
            Step::Run { .. } => panic!("release touches the region"),
        }
    }
}

#[test]
fn release_links_before_it_publishes_and_retries_a_lost_exchange() {
    let (state, op) = run_free(free_start(1, 4));
    assert_eq!(state, FreeState::Head);
    assert_eq!(op, CellOp::Load { cell: Cell::FreeHead, order: MemOrder::Acquire });

    let (state, op) = run_free(free_next(state, reply(3), 1));
    assert_eq!(state, FreeState::Link { head: 3 });
    assert_eq!(op, CellOp::Store { cell: Cell::NextFree(1), value: 3, order: MemOrder::Release });

    let (state, op) = run_free(free_next(state, reply(3), 1));
    assert_eq!(state, FreeState::Swing);
    assert_eq!(
        op,
        CellOp::CompareExchange {
            cell: Cell::FreeHead,
            current: 3,
            new: 1,
            success: MemOrder::AcqRel,
            failure: MemOrder::Acquire,
        }
    );

    // The head moved in between: read it again and link again.
    let (state, op) = run_free(free_next(state, lost(EMPTY), 1));
    assert_eq!(state, FreeState::Head);
    assert_eq!(op, CellOp::Load { cell: Cell::FreeHead, order: MemOrder::Acquire });
    let (state, op) = run_free(free_next(state, reply(EMPTY), 1));
    assert_eq!(
        op,
        CellOp::Store { cell: Cell::NextFree(1), value: EMPTY, order: MemOrder::Release }
    );
    let (state, op) = run_free(free_next(state, reply(EMPTY), 1));
    assert_eq!(
        op,
        CellOp::CompareExchange {
            cell: Cell::FreeHead,
            current: EMPTY,
            new: 1,
            success: MemOrder::AcqRel,
            failure: MemOrder::Acquire,
        }
    );
    let (state, op) = run_free(free_next(state, reply(EMPTY), 1));
    assert_eq!(state, FreeState::Count);
    assert_eq!(op, CellOp::FetchSub { cell: Cell::Allocated, value: 1, order: MemOrder::SeqCst });
    match free_next(state, reply(2), 1) {
        Step::Done(outcome) => {
            assert_eq!(outcome, FreeOutcome::Freed);
            assert_eq!(outcome.into_result(), Ok(()));
        }
        Step::Run { .. } => panic!("release goes on after the count"),
    }
}
