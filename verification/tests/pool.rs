use xmem_core::lifecycle::buffer_name;
use xmem_core::pool::{meta_name, Attempt, DEFAULT_CAPACITY, RETRY_INTERVAL_MS};
use xmem_core::{AccessMode, BufferPool, CudaIpcHandle, Error, StorageType};

#[test]
fn test_create_pool() {
    let name = "/xmem_pool_test_create";
    let pool = BufferPool::create(name).unwrap();
    assert_eq!(pool.name(), name);
    assert_eq!(pool.capacity(), DEFAULT_CAPACITY);
    assert_eq!(pool.capacity(), 1024);
    assert_eq!(pool.meta_region().name(), "/xmem_pool_test_create_meta");
}

#[test]
fn test_acquire_cpu_buffer() {
    let name = "/xmem_pool_test_acquire";
    let mut pool = BufferPool::create(name).unwrap();

    let mut buf = pool.acquire_cpu(1024).unwrap();
    assert_eq!(buf.meta_index(), 0);

    // The handle grants a writable view of the data region, long enough for
    // what is written at its start.
    let data = b"hello";
    let region = buf.as_cpu_slice_mut().unwrap();
    assert!(data.len() <= region.size());
    assert_eq!(region.name(), "/xmem_pool_test_acquire_buf_0");

    // The readable view is of the same region.
    let region = buf.as_cpu_slice().unwrap();
    assert_eq!(region.size(), 1024);
    assert_eq!(region.name(), "/xmem_pool_test_acquire_buf_0");
}

#[test]
fn test_get_buffer() {
    let name = "/xmem_pool_test_get";
    let mut pool = BufferPool::create(name).unwrap();

    // Acquire
    let mut buf = pool.acquire_cpu(1024).unwrap();
    let meta_index = buf.meta_index();
    let written = buf.as_cpu_slice_mut().unwrap().name().to_string();
    pool.set_ref_count(meta_index, 2).unwrap(); // Keep alive after drop

    // Get: the second handle views the region the first one wrote to.
    let buf2 = pool.get(meta_index).unwrap();
    let read = buf2.as_cpu_slice().unwrap();
    assert_eq!(read.name(), written);
    assert!(5 <= read.size());
    assert_eq!(buf2.mode(), AccessMode::ReadOnly);
}

#[test]
fn test_ref_count() {
    let name = "/xmem_pool_test_ref_count";
    let mut pool = BufferPool::create(name).unwrap();

    let buf = pool.acquire_cpu(1024).unwrap();
    let meta_index = buf.meta_index();

    assert_eq!(pool.ref_count(meta_index).unwrap(), 1);

    pool.add_ref(meta_index).unwrap();
    assert_eq!(pool.ref_count(meta_index).unwrap(), 2);

    pool.release(meta_index).unwrap();
    assert_eq!(pool.ref_count(meta_index).unwrap(), 1);
}

#[test]
fn test_read_only_guard() {
    let name = "/xmem_pool_test_read_only";
    let mut pool = BufferPool::create(name).unwrap();

    let buf = pool.acquire_cpu(1024).unwrap();
    let meta_index = buf.meta_index();
    pool.set_ref_count(meta_index, 2).unwrap();

    // Get read-only
    let mut buf2 = pool.get(meta_index).unwrap();
    assert!(buf2.as_cpu_slice().is_ok());
    assert!(buf2.as_cpu_slice_mut().is_err()); // Should fail
    assert_eq!(buf2.as_cpu_slice_mut().unwrap_err(), Error::ReadOnly);
}

#[test]
fn test_forget() {
    let name = "/xmem_pool_test_forget";
    let mut pool = BufferPool::create(name).unwrap();

    let meta_index;
    {
        let buf = pool.acquire_cpu(1024).unwrap();
        meta_index = buf.meta_index();
        let rest = buf.forget(); // Don't decrement ref count
        pool.drop_guard(rest);
    }

    // Ref count should still be 1
    assert_eq!(pool.ref_count(meta_index).unwrap(), 1);
}

#[test]
fn test_preallocate_cpu() {
    let name = "/xmem_pool_test_preallocate";
    let mut pool = BufferPool::create(name).unwrap();

    let indices = pool.preallocate_cpu(1024, 5).unwrap();
    assert_eq!(indices.len(), 5);
    assert_eq!(indices, vec![0, 1, 2, 3, 4]);

    // All should have ref_count = 1
    for &idx in &indices {
        assert_eq!(pool.ref_count(idx).unwrap(), 1);
    }
}

#[test]
fn test_buffer_recycle() {
    let name = "/xmem_pool_test_recycle";
    let mut pool = BufferPool::create_with_capacity(name, 3).unwrap();

    // Allocate all 3 slots
    let buf0 = pool.acquire_cpu(1024).unwrap();
    let buf1 = pool.acquire_cpu(1024).unwrap();
    let buf2 = pool.acquire_cpu(1024).unwrap();

    assert_eq!(buf0.meta_index(), 0);
    assert_eq!(buf1.meta_index(), 1);
    assert_eq!(buf2.meta_index(), 2);

    // Pool should be full
    assert!(pool.acquire_cpu(1024).is_err());

    // Drop buf1 and reclaim its slot
    pool.drop_guard(buf1);
    assert_eq!(pool.try_release(1), Ok(true));

    // Now we can allocate again, should get recycled index
    let buf3 = pool.acquire_cpu(1024).unwrap();
    assert_eq!(buf3.meta_index(), 1); // Recycled!
}

#[test]
fn test_buffer_recycle_with_multiple_refs() {
    let name = "/xmem_pool_test_recycle_refs";
    let mut pool = BufferPool::create_with_capacity(name, 2).unwrap();

    // Allocate
    let buf0 = pool.acquire_cpu(1024).unwrap();
    let idx = buf0.meta_index();

    // Add another reference
    pool.add_ref(idx).unwrap();
    assert_eq!(pool.ref_count(idx).unwrap(), 2);

    // Drop first ref
    pool.drop_guard(buf0);
    assert_eq!(pool.ref_count(idx).unwrap(), 1);

    // Buffer should NOT be recycled yet
    let buf1 = pool.acquire_cpu(1024).unwrap();
    assert_eq!(buf1.meta_index(), 1); // New slot, not recycled

    // Release second ref manually
    pool.release(idx).unwrap();

    // Now try_release should recycle
    assert!(pool.try_release(idx).unwrap());
}

#[test]
fn test_acquire_blocking_timeout() {
    let name = "/xmem_pool_test_timeout";
    let mut pool = BufferPool::create_with_capacity(name, 1).unwrap();

    // Fill the pool
    let _buf = pool.acquire_cpu(1024).unwrap();

    // Try to acquire with a deadline of 50 ms, one round per interval - should fail
    let timeout_ms: u64 = 50;
    let mut elapsed_ms: u64 = 0;
    let mut rounds = 0;
    let result = loop {
        rounds += 1;
        match pool.acquire_cpu_blocking(1024, elapsed_ms >= timeout_ms) {
            Attempt::Ready(buf) => break Ok(buf),
            Attempt::Failed(e) => break Err(e),
            Attempt::Retry => elapsed_ms += RETRY_INTERVAL_MS,
        }
    };
    assert!(matches!(result, Err(Error::Timeout)));
    assert_eq!(rounds, 51);
    assert_eq!(pool.ref_count(0), Ok(1));
}

#[test]
fn test_acquire_blocking_success() {
    let name = "/xmem_pool_test_blocking";
    let mut pool = BufferPool::create_with_capacity(name, 1).unwrap();

    // Fill the pool
    let mut held = Some(pool.acquire_cpu(1024).unwrap());

    // The holder lets go after 20 ms; the waiter has a deadline of 100 ms.
    let timeout_ms: u64 = 100;
    let mut elapsed_ms: u64 = 0;
    let result = loop {
        if elapsed_ms == 20 {
            if let Some(buf) = held.take() {
                let idx = buf.meta_index();
                pool.drop_guard(buf);
                assert_eq!(pool.try_release(idx), Ok(true));
            }
        }
        match pool.acquire_cpu_blocking(1024, elapsed_ms >= timeout_ms) {
            Attempt::Ready(buf) => break Ok(buf),
            Attempt::Failed(e) => break Err(e),
            Attempt::Retry => elapsed_ms += RETRY_INTERVAL_MS,
        }
    };
    assert!(result.is_ok());
    assert_eq!(elapsed_ms, 20);
    assert_eq!(result.unwrap().meta_index(), 0);
}

#[test]
fn blocking_round_makes_an_attempt_even_past_the_deadline() {
    let mut pool = BufferPool::create_with_capacity("/late", 1).unwrap();
    match pool.acquire_cpu_blocking(16, true) {
        Attempt::Ready(buf) => assert_eq!(buf.meta_index(), 0),
        other => panic!("no buffer: {:?}", other),
    }
    assert!(matches!(pool.acquire_cpu_blocking(16, true), Attempt::Failed(Error::Timeout)));
    assert!(matches!(pool.acquire_cpu_blocking(16, false), Attempt::Retry));
    assert_eq!(RETRY_INTERVAL_MS, 1);
}

#[test]
fn blocking_decision() {
    let full = || Err(Error::shared_memory("metadata region full"));
    assert!(matches!(Attempt::after(full(), false), Attempt::Retry));
    assert!(matches!(Attempt::after(full(), true), Attempt::Failed(Error::Timeout)));

    // Any shared-memory failure that mentions a full resource is waited out.
    let disk = || Err(Error::shared_memory("No space left: device full"));
    assert!(matches!(Attempt::after(disk(), false), Attempt::Retry));

    // Every other error ends the acquisition at once, deadline or not.
    for expired in [false, true] {
        let exists = Err(Error::shared_memory("name already exists"));
        match Attempt::after(exists, expired) {
            Attempt::Failed(e) => assert_eq!(e, Error::shared_memory("name already exists")),
            other => panic!("went on: {:?}", other),
        }
        match Attempt::after(Err(Error::BufferNotFound(3)), expired) {
            Attempt::Failed(e) => assert_eq!(e, Error::BufferNotFound(3)),
            other => panic!("went on: {:?}", other),
        }
        match Attempt::after(Err(Error::Cuda("full".to_string())), expired) {
            Attempt::Failed(e) => assert_eq!(e, Error::Cuda("full".to_string())),
            other => panic!("went on: {:?}", other),
        }
    }

    let mut pool = BufferPool::create("/decide").unwrap();
    let guard = pool.acquire_cpu(8).unwrap();
    match Attempt::after(Ok(guard), true) {
        Attempt::Ready(buf) => assert_eq!(buf.meta_index(), 0),
        other => panic!("lost the buffer: {:?}", other),
    }
}

#[test]
fn region_names() {
    assert_eq!(meta_name("/p1"), "/p1_meta");
    assert_eq!(meta_name(""), "_meta");
    assert_eq!(buffer_name("/p1", 0), "/p1_buf_0");
    assert_eq!(buffer_name("/p1", 10), "/p1_buf_10");
    assert_eq!(buffer_name("/p1", 4294967295), "/p1_buf_4294967295");
    let pool = BufferPool::create_with_capacity("/names", 2).unwrap();
    assert_eq!(pool.buffer_shm_name(1), "/names_buf_1");
    assert_eq!(pool.buffer_shm_name(1023), "/names_buf_1023");
}

#[test]
fn host_round_trip_scenario() {
    let mut pool = BufferPool::create_with_capacity("/p1", 1024).unwrap();
    let mut writer = pool.acquire_cpu(16).unwrap();
    assert_eq!(writer.meta_index(), 0);
    assert_eq!(writer.mode(), AccessMode::ReadWrite);
    assert!(writer.is_valid());
    let hello = [0x68u8, 0x65, 0x6C, 0x6C, 0x6F];
    assert!(hello.len() <= writer.as_cpu_slice_mut().unwrap().size());

    assert_eq!(pool.set_ref_count(0, 2), Ok(()));
    let reader = pool.get(0).unwrap();
    assert_eq!(reader.mode(), AccessMode::ReadOnly);
    assert_eq!(reader.as_cpu_slice().unwrap().name(), "/p1_buf_0");
    assert_eq!(reader.as_cpu_slice().unwrap().size(), 16);
    assert!(!reader.as_cpu_slice().unwrap().is_owner());
    assert_eq!(pool.ref_count(0), Ok(3));

    let record = *pool.meta_region().get(0).unwrap();
    assert_eq!(record.id, 0);
    assert_eq!(record.storage_type, StorageType::Cpu.to_u8());
    assert_eq!(record.device_id, 0);
    assert_eq!(record.size, 16);

    // Drop both, and let go of the reference that was set by hand.
    pool.drop_guard(writer);
    pool.drop_guard(reader);
    assert_eq!(pool.ref_count(0), Ok(1));
    assert_eq!(pool.try_release(0), Ok(false));
    assert_eq!(pool.release(0), Ok(0));
    assert_eq!(pool.try_release(0), Ok(true));
    assert_eq!(pool.meta_region().header().allocated, 0);
}

#[test]
fn recycling_scenario() {
    let mut pool = BufferPool::create_with_capacity("/p2", 3).unwrap();
    let a = pool.acquire_cpu(1024).unwrap();
    let b = pool.acquire_cpu(1024).unwrap();
    let c = pool.acquire_cpu(1024).unwrap();
    assert_eq!((a.meta_index(), b.meta_index(), c.meta_index()), (0, 1, 2));

    let fourth = pool.acquire_cpu(1024);
    assert_eq!(fourth.unwrap_err(), Error::shared_memory("metadata region full"));
    assert_eq!(pool.meta_region().header().next_id, 3);

    pool.drop_guard(b);
    assert_eq!(pool.ref_count(1), Ok(0));
    // Reaching zero does not reclaim the slot.
    assert!(pool.acquire_cpu(1024).is_err());
    assert_eq!(pool.try_release(1), Ok(true));

    let again = pool.acquire_cpu(1024).unwrap();
    assert_eq!(again.meta_index(), 1);
    assert_eq!(pool.ref_count(1), Ok(1));
    assert_eq!(pool.meta_region().header().next_id, 3);
}

#[test]
fn forget_scenario() {
    let mut pool = BufferPool::create("/detached").unwrap();
    let buf = pool.acquire_cpu(1024).unwrap();
    assert!(buf.is_valid());
    assert!(buf.releases());
    let rest = buf.forget();
    assert!(!rest.is_valid());
    assert!(!rest.releases());
    assert_eq!(rest.meta_index(), 0);
    assert_eq!(rest.as_cpu_slice().unwrap_err(), Error::AlreadyForgotten);
    assert_eq!(rest.as_cuda_ptr().unwrap_err(), Error::AlreadyForgotten);
    pool.drop_guard(rest);
    assert_eq!(pool.ref_count(0), Ok(1));
    assert_eq!(pool.try_release(0), Ok(false));
}

#[test]
fn dropping_a_handle_releases_exactly_once() {
    let mut pool = BufferPool::create_with_capacity("/once", 4).unwrap();
    let first = pool.acquire_cpu(8).unwrap();
    let _second = pool.acquire_cpu(8).unwrap();
    pool.set_ref_count(0, 5).unwrap();
    pool.set_ref_count(1, 7).unwrap();
    pool.drop_guard(first);
    assert_eq!(pool.ref_count(0), Ok(4));
    assert_eq!(pool.ref_count(1), Ok(7));
}

#[test]
fn add_ref_then_release_restores_the_count() {
    let mut pool = BufferPool::create_with_capacity("/balanced", 2).unwrap();
    let _buf = pool.acquire_cpu(8).unwrap();
    for start in [1, 0, -1, 41, i32::MAX, i32::MIN] {
        pool.set_ref_count(0, start).unwrap();
        assert_eq!(pool.add_ref(0), Ok(start.wrapping_add(1)));
        assert_eq!(pool.release(0), Ok(start));
        assert_eq!(pool.ref_count(0), Ok(start));
    }
}

#[test]
fn reference_counts_of_missing_slots() {
    let mut pool = BufferPool::create_with_capacity("/missing", 2).unwrap();
    assert_eq!(pool.ref_count(2), Err(Error::BufferNotFound(2)));
    assert_eq!(pool.add_ref(2), Err(Error::BufferNotFound(2)));
    assert_eq!(pool.release(7), Err(Error::BufferNotFound(7)));
    assert_eq!(pool.set_ref_count(2, 1), Err(Error::BufferNotFound(2)));
    assert_eq!(pool.try_release(2), Err(Error::BufferNotFound(2)));
    assert_eq!(pool.release_buffer(2), Err(Error::BufferNotFound(2)));
    assert_eq!(pool.get(2).unwrap_err(), Error::BufferNotFound(2));
    assert_eq!(pool.get_mut(u32::MAX).unwrap_err(), Error::BufferNotFound(u32::MAX));
    // Slots below the capacity can be counted before they are acquired.
    assert_eq!(pool.ref_count(1), Ok(0));
    assert_eq!(pool.add_ref(1), Ok(1));
}

#[test]
fn get_mut_hands_out_a_writable_handle() {
    let mut pool = BufferPool::create("/writable").unwrap();
    let _owner = pool.acquire_cpu(32).unwrap();
    let mut peer = pool.get_mut(0).unwrap();
    assert_eq!(peer.mode(), AccessMode::ReadWrite);
    assert_eq!(peer.as_cpu_slice_mut().unwrap().size(), 32);
    assert_eq!(pool.ref_count(0), Ok(2));
    let mut other = pool.get_with_mode(0, AccessMode::ReadOnly, 0).unwrap();
    assert_eq!(other.as_cpu_slice_mut().unwrap_err(), Error::ReadOnly);
    assert_eq!(other.as_cuda_ptr_mut().unwrap_err(), Error::ReadOnly);
    assert_eq!(pool.ref_count(0), Ok(3));
}

#[test]
fn get_keeps_its_reference_when_the_record_is_unreadable() {
    let mut pool = BufferPool::create("/kind").unwrap();
    let _owner = pool.acquire_cpu(32).unwrap();
    let (mut header, mut records) = (pool.meta_region().header(), pool.meta_region().records());
    records[0].storage_type = 9;
    header.waiters = 0;
    let mut broken = BufferPool::open("/kind", header, records).unwrap();
    assert_eq!(
        broken.get(0).unwrap_err(),
        Error::SharedMemory("invalid storage type".to_string())
    );
    assert_eq!(broken.ref_count(0), Ok(2));
}

#[test]
fn test_acquire_cuda_buffer() {
    let name = "/xmem_cuda_test_acquire";
    let mut pool = BufferPool::create(name).unwrap();

    let mut handle = CudaIpcHandle::default();
    handle.reserved[5] = 0xAB;
    let driver_ptr: u64 = 0x7f12_3400_0000;
    let buf = pool.acquire_cuda(1024, 0, driver_ptr, handle).unwrap();
    assert_eq!(buf.meta_index(), 0);

    let ptr = buf.as_cuda_ptr().unwrap();
    assert!(ptr > 0);
    assert_eq!(ptr, driver_ptr);

    let device = buf.data().unwrap().as_cuda().unwrap();
    assert_eq!(device.size(), 1024);
    assert_eq!(device.device_id(), 0);
    assert_eq!(device.ipc_handle().reserved, handle.reserved);
    assert_eq!(
        buf.as_cpu_slice().unwrap_err(),
        Error::type_mismatch("Cpu", "Cuda")
    );
}

#[test]
fn test_cuda_ipc() {
    let name = "/xmem_cuda_test_ipc";
    let mut pool = BufferPool::create(name).unwrap();

    // Acquire CUDA buffer
    let mut handle = CudaIpcHandle::default();
    for (i, byte) in handle.reserved.iter_mut().enumerate() {
        *byte = i as u8 + 1;
    }
    let buf = pool.acquire_cuda(1024, 3, 0x7f00_0000_4000, handle).unwrap();
    let meta_index = buf.meta_index();
    pool.set_ref_count(meta_index, 2).unwrap();

    // The record carries what a peer needs for the import.
    let record = *pool.meta_region().get(meta_index).unwrap();
    assert_eq!(record.storage_type, 1);
    assert_eq!(record.device_id, 3);
    assert_eq!(record.size, 1024);
    assert_eq!(record.cuda_ipc_handle, handle.reserved);

    // Get via IPC: the import lies where the driver put it.
    let imported_ptr: u64 = 0x7f00_0000_8000;
    let mut buf2 = pool.get_with_mode(meta_index, AccessMode::ReadOnly, imported_ptr).unwrap();
    let ptr = buf2.as_cuda_ptr().unwrap();
    assert!(ptr > 0);
    assert_eq!(ptr, imported_ptr);
    assert_eq!(buf.as_cuda_ptr(), Ok(0x7f00_0000_4000));
    let device = *buf2.data().unwrap().as_cuda().unwrap();
    assert_eq!(device.device_id(), 3);
    assert_eq!(device.teardown(), xmem_core::cuda::Teardown::Close);
    assert_eq!(device.size(), 1024);
    assert_eq!(device.ipc_handle().reserved, handle.reserved);
    assert_eq!(buf2.as_cuda_ptr_mut().unwrap_err(), Error::ReadOnly);
    assert_eq!(
        buf2.as_cpu_slice().unwrap_err(),
        Error::type_mismatch("Cpu", "Cuda")
    );
    assert_eq!(pool.ref_count(meta_index), Ok(3));
}

#[test]
fn host_handles_have_no_device_view() {
    let mut pool = BufferPool::create("/host_only").unwrap();
    let mut buf = pool.acquire_cpu(64).unwrap();
    assert_eq!(buf.as_cuda_ptr().unwrap_err(), Error::type_mismatch("Cuda", "Cpu"));
    assert_eq!(buf.as_cuda_ptr_mut().unwrap_err(), Error::type_mismatch("Cuda", "Cpu"));
}

#[test]
fn device_ordinal_is_stored_as_one_byte() {
    let mut pool = BufferPool::create("/ordinal").unwrap();
    let buf = pool.acquire_cuda(16, 258, 64, CudaIpcHandle::default()).unwrap();
    assert_eq!(buf.data().unwrap().cuda_device_id(), Some(258));
    assert_eq!(buf.as_cuda_ptr(), Ok(64));
    assert_eq!(pool.meta_region().get(0).unwrap().device_id, 2);
}

#[test]
fn preallocation_stops_at_a_full_pool() {
    let mut pool = BufferPool::create_with_capacity("/warm", 3).unwrap();
    assert_eq!(pool.preallocate_cpu(64, 0), Ok(vec![]));
    assert_eq!(pool.preallocate_cpu(64, 2), Ok(vec![0, 1]));
    let result = pool.preallocate_cpu(64, 2);
    assert_eq!(result, Err(Error::shared_memory("metadata region full")));
    // The buffer acquired before the failure stays.
    assert_eq!(pool.meta_region().header().allocated, 3);
    for idx in 0..3 {
        assert_eq!(pool.ref_count(idx), Ok(1));
        assert_eq!(pool.meta_region().get(idx).unwrap().size, 64);
    }
}

#[test]
fn capacity_out_of_range_fails_pool_creation() {
    let result = BufferPool::create_with_capacity("/huge", usize::MAX);
    assert_eq!(result.unwrap_err(), Error::shared_memory("capacity out of range"));
}

#[test]
fn test_preallocate_cuda() {
    let name = "/xmem_cuda_test_preallocate";
    let mut pool = BufferPool::create(name).unwrap();

    let mut handles = vec![CudaIpcHandle::default(); 3];
    for (i, handle) in handles.iter_mut().enumerate() {
        handle.reserved[0] = i as u8 + 1;
    }
    let indices = pool.preallocate_cuda(1024, 0, &handles).unwrap();
    assert_eq!(indices.len(), 3);
    assert_eq!(indices, vec![0, 1, 2]);

    for &idx in &indices {
        assert_eq!(pool.ref_count(idx).unwrap(), 1);
        let record = *pool.meta_region().get(idx).unwrap();
        assert_eq!(record.storage_type, 1);
        assert_eq!(record.size, 1024);
        assert_eq!(record.cuda_ipc_handle[0], idx as u8 + 1);
    }
}

#[test]
fn device_preallocation_stops_at_a_full_pool() {
    let mut pool = BufferPool::create_with_capacity("/warm_device", 2).unwrap();
    let handles = vec![CudaIpcHandle::default(); 3];
    let result = pool.preallocate_cuda(64, 1, &handles);
    assert_eq!(result, Err(Error::shared_memory("metadata region full")));
    assert_eq!(pool.meta_region().header().allocated, 2);
    assert_eq!(pool.preallocate_cuda(64, 1, &Vec::new()), Ok(vec![]));
}

#[test]
fn get_of_a_device_buffer_without_an_address() {
    let mut pool = BufferPool::create("/plain_get").unwrap();
    let _owner = pool.acquire_cuda(32, 1, 0x1000, CudaIpcHandle::default()).unwrap();
    let peer = pool.get(0).unwrap();
    assert_eq!(peer.as_cuda_ptr(), Ok(0));
    let writer = pool.get_mut(0).unwrap();
    assert_eq!(writer.as_cuda_ptr(), Ok(0));
    assert_eq!(pool.ref_count(0), Ok(3));
}

#[test]
fn preallocation_with_room_acquires_every_slot_once() {
    let mut pool = BufferPool::create_with_capacity("/warm_all", 6).unwrap();
    // Leave a gap in the middle for the preallocation to fill.
    let _a = pool.acquire_cpu(8).unwrap();
    let b = pool.acquire_cpu(8).unwrap();
    let _c = pool.acquire_cpu(8).unwrap();
    pool.drop_guard(b);
    assert_eq!(pool.try_release(1), Ok(true));
    pool.set_ref_count(0, 5).unwrap();

    let indices = pool.preallocate_cpu(256, 4).unwrap();
    assert_eq!(indices, vec![1, 3, 4, 5]);
    for &idx in &indices {
        let record = *pool.meta_region().get(idx).unwrap();
        assert_eq!(record.id, idx);
        assert_eq!(record.ref_count, 1);
        assert_eq!(record.storage_type, 0);
        assert_eq!(record.size, 256);
    }
    // What was allocated before is as it was.
    assert_eq!(pool.ref_count(0), Ok(5));
    assert_eq!(pool.meta_region().get(0).unwrap().size, 8);
    assert_eq!(pool.meta_region().get(2).unwrap().size, 8);
    assert_eq!(pool.meta_region().header().allocated, 6);
}
