use xmem_core::lifecycle::{
    acquire_next, acquire_start, buffer_name, count_next, count_start, get_next, get_start,
    preallocate_next, preallocate_start, reclaim_next, reclaim_start, AcquireState, Action,
    CountOp, Event, GetState, Move, ReclaimState, Request, Warm,
};
use xmem_core::protocol::{Cell, CellOp, CellReply, FreeState, MemOrder, EMPTY};
use xmem_core::{AccessMode, BufferGuard, CudaIpcHandle, Error, StorageType};

fn word(value: u32) -> Event {
    Event::Word(CellReply { done: true, value })
}

fn running<S, T: std::fmt::Debug>(step: Move<S, T>) -> (S, Action) {
    match step {
        Move::Run { state, action } => (state, action),
        Move::Done(result) => panic!("ended early with {:?}", result),
    }
}

fn finished<S: std::fmt::Debug, T>(step: Move<S, T>) -> T {
    match step {
        Move::Done(result) => result,
        Move::Run { state, action } => panic!("goes on in {:?} with {:?}", state, action),
    }
}

fn unexpected() -> Error {
    Error::SharedMemory("unexpected event".to_string())
}

#[test]
fn record_actions_are_sequentially_consistent() {
    let handle = CudaIpcHandle::default();
    let on_records = [
        Action::Count { index: 0, op: CountOp::Add },
        Action::Count { index: 0, op: CountOp::Load },
        Action::LoadKind { index: 0 },
        Action::LoadDevice { index: 0 },
        Action::WriteRecord { index: 0, kind: StorageType::Cpu, device: 0, length: 8 },
    ];
    for action in on_records {
        assert_eq!(action.order(), Some(MemOrder::SeqCst), "{:?}", action);
    }
    let others = [
        Action::Word(CellOp::Load { cell: Cell::FreeHead, order: MemOrder::Acquire }),
        Action::WriteHandle { index: 0, handle },
        Action::CreateRegion { index: 0, size: 8 },
        Action::OpenRegion { index: 0 },
        Action::AllocZeroed { device_id: 0, size: 8 },
        Action::ExportHandle { ptr: 64 },
        Action::ImportHandle { device_id: 0, handle, lazy_peer: true },
        Action::FreeDevice { ptr: 64 },
    ];
    for action in others {
        assert_eq!(action.order(), None, "{:?}", action);
    }
}

#[test]
fn count_operations() {
    assert_eq!(CountOp::Load.result(5), 5);
    assert_eq!(CountOp::Store(9).result(5), 9);
    assert_eq!(CountOp::Add.result(5), 6);
    assert_eq!(CountOp::Sub.result(5), 4);
    assert_eq!(CountOp::Add.result(i32::MAX), i32::MIN);
    assert_eq!(CountOp::Sub.result(i32::MIN), i32::MAX);
    assert_eq!(CountOp::Sub.result(0), -1);

    let (state, action) = running(count_start(2, 3, CountOp::Add));
    assert_eq!(state, CountOp::Add);
    match action {
        Action::Count { index, op } => assert_eq!((index, op), (2, CountOp::Add)),
        other => panic!("wrong action {:?}", other),
    }
    assert_eq!(finished(count_next(state, Event::Count(41))), Ok(42));
    assert_eq!(finished(count_next(CountOp::Sub, Event::Count(1))), Ok(0));
    assert_eq!(finished(count_next(CountOp::Load, Event::Written)), Err(unexpected()));
    assert_eq!(
        finished(count_start(3, 3, CountOp::Load)),
        Err(Error::BufferNotFound(3))
    );
}

#[test]
fn reclaim_leaves_a_referenced_slot_alone() {
    let (state, action) = running(reclaim_start(1, 4));
    assert_eq!(state, ReclaimState::Counting);
    match action {
        Action::Count { index, op } => assert_eq!((index, op), (1, CountOp::Load)),
        other => panic!("wrong action {:?}", other),
    }
    assert_eq!(finished(reclaim_next(state, Event::Count(1), 1, 4)), Ok(false));
    assert_eq!(finished(reclaim_next(state, Event::Count(i32::MAX), 1, 4)), Ok(false));
    assert_eq!(finished(reclaim_start(4, 4)), Err(Error::BufferNotFound(4)));
    assert_eq!(finished(reclaim_next(state, word(0), 1, 4)), Err(unexpected()));
}

#[test]
fn reclaim_frees_an_unreferenced_slot() {
    for count in [0, -1, i32::MIN] {
        let (state, _) = running(reclaim_start(1, 4));
        let (state, action) = running(reclaim_next(state, Event::Count(count), 1, 4));
        assert_eq!(state, ReclaimState::Freeing(FreeState::Head));
        match action {
            Action::Word(op) => {
                assert_eq!(op, CellOp::Load { cell: Cell::FreeHead, order: MemOrder::Acquire })
            }
            other => panic!("wrong action {:?}", other),
        }
        let (state, action) = running(reclaim_next(state, word(EMPTY), 1, 4));
        match action {
            Action::Word(op) => assert_eq!(
                op,
                CellOp::Store { cell: Cell::NextFree(1), value: EMPTY, order: MemOrder::Release }
            ),
            other => panic!("wrong action {:?}", other),
        }
        let (state, _) = running(reclaim_next(state, word(EMPTY), 1, 4));
        assert_eq!(state, ReclaimState::Freeing(FreeState::Swing));
        let (state, _) = running(reclaim_next(state, word(EMPTY), 1, 4));
        assert_eq!(state, ReclaimState::Freeing(FreeState::Count));
        assert_eq!(finished(reclaim_next(state, word(3), 1, 4)), Ok(true));
        assert_eq!(finished(reclaim_next(state, Event::Count(0), 1, 4)), Err(unexpected()));
    }
}

#[test]
fn data_region_names() {
    assert_eq!(buffer_name("/p1", 0), "/p1_buf_0");
    assert_eq!(buffer_name("", 7), "_buf_7");
    assert_eq!(buffer_name("/pool", 1023), "/pool_buf_1023");
}

#[test]
fn get_of_a_host_buffer() {
    assert_eq!(finished(get_start(5, 5)).unwrap_err(), Error::BufferNotFound(5));

    let (state, action) = running(get_start(4, 5));
    assert_eq!(state, GetState::Counting);
    match action {
        Action::Count { index, op } => assert_eq!((index, op), (4, CountOp::Add)),
        other => panic!("wrong action {:?}", other),
    }
    let (state, action) = running(get_next(state, Event::Count(1), "/g", 4, AccessMode::ReadOnly));
    assert_eq!(state, GetState::Kind);
    assert!(matches!(action, Action::LoadKind { index: 4 }));
    let (state, action) = running(get_next(state, Event::Kind(0), "/g", 4, AccessMode::ReadOnly));
    assert_eq!(state, GetState::Opening);
    assert!(matches!(action, Action::OpenRegion { index: 4 }));

    let opened = Event::Region(Ok(128));
    let guard = finished(get_next(state, opened, "/g", 4, AccessMode::ReadOnly)).unwrap();
    assert_eq!(guard.meta_index(), 4);
    assert_eq!(guard.mode(), AccessMode::ReadOnly);
    assert!(guard.releases());
    let region = guard.as_cpu_slice().unwrap();
    assert_eq!(region.name(), "/g_buf_4");
    assert_eq!(region.size(), 128);
    assert!(!region.is_owner());

    let failed = Event::Region(Err("no such region".to_string()));
    assert_eq!(
        finished(get_next(state, failed, "/g", 4, AccessMode::ReadOnly)).unwrap_err(),
        Error::SharedMemory("no such region".to_string())
    );
    assert_eq!(
        finished(get_next(state, Event::Written, "/g", 4, AccessMode::ReadOnly)).unwrap_err(),
        unexpected()
    );
    assert_eq!(
        finished(get_next(state, Event::Pointer(Ok(1)), "/g", 4, AccessMode::ReadOnly))
            .unwrap_err(),
        unexpected()
    );
}

#[test]
fn get_of_a_device_buffer() {
    let mut handle = CudaIpcHandle::default();
    handle.reserved[63] = 1;
    let mode = AccessMode::ReadWrite;

    let (state, _) = running(get_start(0, 1));
    let (state, _) = running(get_next(state, Event::Count(1), "/d", 0, mode));
    let (state, action) = running(get_next(state, Event::Kind(1), "/d", 0, mode));
    assert_eq!(state, GetState::Describing);
    assert!(matches!(action, Action::LoadDevice { index: 0 }));

    let described = Event::Device { device: 200, size: 4096, handle };
    let (state, action) = running(get_next(state, described, "/d", 0, mode));
    assert_eq!(state, GetState::Importing { device: 200, size: 4096, handle });
    match action {
        Action::ImportHandle { device_id, handle: asked, lazy_peer } => {
            assert_eq!(device_id, 200);
            assert_eq!(asked, handle);
            assert!(lazy_peer);
        }
        other => panic!("wrong action {:?}", other),
    }

    let guard = finished(get_next(state, Event::Pointer(Ok(0x7f00)), "/d", 0, mode)).unwrap();
    assert_eq!(guard.mode(), AccessMode::ReadWrite);
    assert_eq!(guard.as_cuda_ptr(), Ok(0x7f00));
    let device = guard.data().unwrap().as_cuda().unwrap();
    assert_eq!(device.device_ptr(), 0x7f00);
    assert_eq!(device.device_id(), 200);
    assert_eq!(device.size(), 4096);
    assert_eq!(*device.ipc_handle(), handle);

    let failed = Event::Pointer(Err("import failed".to_string()));
    assert_eq!(
        finished(get_next(state, failed, "/d", 0, mode)).unwrap_err(),
        Error::Cuda("import failed".to_string())
    );
    assert_eq!(
        finished(get_next(state, Event::Region(Ok(4096)), "/d", 0, mode)).unwrap_err(),
        unexpected()
    );
}

#[test]
fn get_rejects_an_unknown_storage_kind() {
    for kind in [2u8, 3, 255] {
        let (state, _) = running(get_start(0, 1));
        let (state, _) = running(get_next(state, Event::Count(0), "/k", 0, AccessMode::ReadOnly));
        let result = finished(get_next(state, Event::Kind(kind), "/k", 0, AccessMode::ReadOnly));
        assert_eq!(result.unwrap_err(), Error::shared_memory("invalid storage type"));
    }
}

fn allocate_slot(request: Request, slot: u32, capacity: u32) -> (AcquireState, Action) {
    let (state, action) = running(acquire_start(request));
    assert!(matches!(
        action,
        Action::Word(CellOp::Load { cell: Cell::FreeHead, order: MemOrder::Acquire })
    ));
    let (state, action) = running(acquire_next(state, word(EMPTY), request, "/a", capacity));
    assert!(matches!(
        action,
        Action::Word(CellOp::FetchAdd { cell: Cell::NextId, value: 1, order: MemOrder::SeqCst })
    ));
    let (state, action) = running(acquire_next(state, word(slot), request, "/a", capacity));
    assert!(matches!(
        action,
        Action::Word(CellOp::FetchAdd { cell: Cell::Allocated, value: 1, order: MemOrder::SeqCst })
    ));
    running(acquire_next(state, word(slot), request, "/a", capacity))
}

fn expect_guard(step: Move<AcquireState, Result<BufferGuard, Error>>) -> BufferGuard {
    finished(step).unwrap()
}

#[test]
fn acquisition_of_a_host_buffer() {
    let request = Request::Cpu { size: 1024 };
    let (state, action) = allocate_slot(request, 2, 4);
    assert!(matches!(state, AcquireState::Providing { index: 2 }));
    assert!(matches!(action, Action::CreateRegion { index: 2, size: 1024 }));

    let (state, action) = running(acquire_next(state, Event::Region(Ok(1024)), request, "/a", 4));
    assert!(matches!(state, AcquireState::Writing { index: 2, .. }));
    match action {
        Action::WriteRecord { index, kind, device, length } => {
            assert_eq!((index, kind, device, length), (2, StorageType::Cpu, 0, 1024));
        }
        other => panic!("wrong action {:?}", other),
    }

    let guard = expect_guard(acquire_next(state, Event::Written, request, "/a", 4));
    assert_eq!(guard.meta_index(), 2);
    assert_eq!(guard.mode(), AccessMode::ReadWrite);
    assert!(guard.releases());
    let region = guard.as_cpu_slice().unwrap();
    assert_eq!(region.name(), "/a_buf_2");
    assert_eq!(region.size(), 1024);
    assert!(region.is_owner());
}

#[test]
fn acquisition_stops_when_the_region_cannot_be_created() {
    let request = Request::Cpu { size: 1024 };
    let (state, _) = allocate_slot(request, 0, 4);
    let failed = Event::Region(Err("name already exists".to_string()));
    let result = finished(acquire_next(state, failed, request, "/a", 4));
    assert_eq!(result.unwrap_err(), Error::shared_memory("name already exists"));
}

#[test]
fn acquisition_fails_on_a_full_region() {
    let request = Request::Cpu { size: 8 };
    let (state, _) = running(acquire_start(request));
    let (state, _) = running(acquire_next(state, word(EMPTY), request, "/a", 2));
    let (state, action) = running(acquire_next(state, word(2), request, "/a", 2));
    assert!(matches!(
        action,
        Action::Word(CellOp::FetchSub { cell: Cell::NextId, value: 1, order: MemOrder::SeqCst })
    ));
    let result = finished(acquire_next(state, word(3), request, "/a", 2));
    assert_eq!(result.unwrap_err(), Error::shared_memory("metadata region full"));
}

#[test]
fn acquisition_of_a_device_buffer() {
    let mut handle = CudaIpcHandle::default();
    handle.reserved[0] = 0xFE;
    let request = Request::Cuda { size: 2048, device_id: 257 };
    let (state, action) = allocate_slot(request, 1, 4);
    assert!(matches!(state, AcquireState::Providing { index: 1 }));
    assert!(matches!(action, Action::AllocZeroed { device_id: 257, size: 2048 }));

    let (state, action) =
        running(acquire_next(state, Event::Pointer(Ok(0x7000)), request, "/a", 4));
    assert!(matches!(state, AcquireState::Exporting { index: 1, ptr: 0x7000 }));
    assert!(matches!(action, Action::ExportHandle { ptr: 0x7000 }));

    let (state, action) =
        running(acquire_next(state, Event::Handle(Ok(handle)), request, "/a", 4));
    match action {
        Action::WriteRecord { index, kind, device, length } => {
            assert_eq!((index, kind, device, length), (1, StorageType::Cuda, 1, 2048));
        }
        other => panic!("wrong action {:?}", other),
    }
    let (state, action) = running(acquire_next(state, Event::Written, request, "/a", 4));
    assert!(matches!(state, AcquireState::Sharing { index: 1, .. }));
    match action {
        Action::WriteHandle { index, handle: copied } => {
            assert_eq!(index, 1);
            assert_eq!(copied, handle);
        }
        other => panic!("wrong action {:?}", other),
    }
    let guard = expect_guard(acquire_next(state, Event::Written, request, "/a", 4));
    assert_eq!(guard.meta_index(), 1);
    assert_eq!(guard.as_cuda_ptr(), Ok(0x7000));
    let device = guard.data().unwrap().as_cuda().unwrap();
    assert_eq!(device.device_ptr(), 0x7000);
    assert_eq!(device.device_id(), 257);
    assert_eq!(device.size(), 2048);
    assert_eq!(*device.ipc_handle(), handle);
}

#[test]
fn device_memory_without_a_handle_is_freed_again() {
    let request = Request::Cuda { size: 2048, device_id: 0 };

    let (state, _) = allocate_slot(request, 1, 4);
    let failed = Event::Pointer(Err("out of memory".to_string()));
    let result = finished(acquire_next(state, failed, request, "/a", 4));
    assert_eq!(result.unwrap_err(), Error::Cuda("out of memory".to_string()));

    let (state, _) = allocate_slot(request, 1, 4);
    let (state, _) = running(acquire_next(state, Event::Pointer(Ok(0x9000)), request, "/a", 4));
    let refused = Event::Handle(Err("no handle".to_string()));
    let (state, action) = running(acquire_next(state, refused, request, "/a", 4));
    assert!(matches!(state, AcquireState::Abandoning { .. }));
    assert!(matches!(action, Action::FreeDevice { ptr: 0x9000 }));
    let result = finished(acquire_next(state, Event::Released, request, "/a", 4));
    assert_eq!(result.unwrap_err(), Error::Cuda("no handle".to_string()));
}

#[test]
fn acquisition_rejects_an_event_it_did_not_ask_for() {
    let request = Request::Cpu { size: 8 };
    let (state, _) = running(acquire_start(request));
    let result = finished(acquire_next(state, Event::Written, request, "/a", 2));
    assert_eq!(result.unwrap_err(), unexpected());

    let (state, _) = allocate_slot(request, 0, 2);
    let result = finished(acquire_next(state, Event::Pointer(Ok(8)), request, "/a", 2));
    assert_eq!(result.unwrap_err(), unexpected());

    let device = Request::Cuda { size: 8, device_id: 0 };
    let (state, _) = allocate_slot(device, 0, 2);
    let result = finished(acquire_next(state, Event::Region(Ok(8)), device, "/a", 2));
    assert_eq!(result.unwrap_err(), unexpected());

    let (state, _) = allocate_slot(device, 0, 2);
    let (state, _) = running(acquire_next(state, Event::Pointer(Ok(8)), device, "/a", 2));
    let result = finished(acquire_next(state, Event::Released, device, "/a", 2));
    assert_eq!(result.unwrap_err(), unexpected());
}

fn handle_of(slot: u32) -> BufferGuard {
    let request = Request::Cpu { size: 8 };
    let (state, _) = allocate_slot(request, slot, 16);
    let (state, _) = running(acquire_next(state, Event::Region(Ok(8)), request, "/w", 16));
    expect_guard(acquire_next(state, Event::Written, request, "/w", 16))
}

#[test]
fn preallocation_steps() {
    assert!(matches!(preallocate_start(0), Warm::Done(Ok(indices)) if indices.is_empty()));
    let indices = match preallocate_start(2) {
        Warm::More(indices) => indices,
        other => panic!("ended early: {:?}", other),
    };
    assert!(indices.is_empty());

    let indices = match preallocate_next(indices, Ok(handle_of(4)), 2) {
        Warm::More(indices) => indices,
        other => panic!("ended early: {:?}", other),
    };
    assert_eq!(indices, vec![4]);
    match preallocate_next(indices, Ok(handle_of(7)), 2) {
        Warm::Done(result) => assert_eq!(result, Ok(vec![4, 7])),
        other => panic!("goes on: {:?}", other),
    }

    // A failed acquisition ends the run with its error.
    match preallocate_next(vec![4], Err(Error::region_full()), 3) {
        Warm::Done(result) => assert_eq!(result, Err(Error::region_full())),
        other => panic!("goes on: {:?}", other),
    }
}
