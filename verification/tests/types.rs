use xmem_core::cuda::Teardown;
use xmem_core::text::{append_decimal, contains_str};
use xmem_core::{
    AccessMode, BufferData, CudaBuffer, CudaIpcHandle, DType, Error, SharedMemory, StorageType,
};

#[test]
fn dtype_sizes() {
    assert_eq!(DType::UInt8.size(), 1);
    assert_eq!(DType::Int8.size(), 1);
    assert_eq!(DType::UInt16.size(), 2);
    assert_eq!(DType::Int16.size(), 2);
    assert_eq!(DType::Float16.size(), 2);
    assert_eq!(DType::UInt32.size(), 4);
    assert_eq!(DType::Int32.size(), 4);
    assert_eq!(DType::Float32.size(), 4);
    assert_eq!(DType::UInt64.size(), 8);
    assert_eq!(DType::Int64.size(), 8);
    assert_eq!(DType::Float64.size(), 8);
}

#[test]
fn dtype_codes_round_trip() {
    let all = [
        DType::UInt8,
        DType::Int8,
        DType::UInt16,
        DType::Int16,
        DType::UInt32,
        DType::Int32,
        DType::UInt64,
        DType::Int64,
        DType::Float16,
        DType::Float32,
        DType::Float64,
    ];
    for (code, dtype) in all.iter().enumerate() {
        assert_eq!(dtype.to_u8(), code as u8);
        assert_eq!(DType::from_u8(code as u8), Some(*dtype));
    }
    assert_eq!(DType::from_u8(11), None);
    assert_eq!(DType::from_u8(255), None);
}

#[test]
fn storage_type_codes() {
    assert_eq!(StorageType::from_u8(0), Some(StorageType::Cpu));
    assert_eq!(StorageType::from_u8(1), Some(StorageType::Cuda));
    assert_eq!(StorageType::from_u8(2), None);
    assert_eq!(StorageType::from_u8(255), None);
    assert_eq!(StorageType::Cpu.to_u8(), 0);
    assert_eq!(StorageType::Cuda.to_u8(), 1);
    assert_ne!(AccessMode::ReadOnly, AccessMode::ReadWrite);
}

#[test]
fn error_messages() {
    assert_eq!(
        Error::SharedMemory("boom".to_string()).message(),
        "shared memory error: boom"
    );
    assert_eq!(Error::BufferNotFound(42).message(), "buffer not found: index 42");
    assert_eq!(Error::BufferNotFound(0).message(), "buffer not found: index 0");
    assert_eq!(
        Error::BufferNotFound(u32::MAX).message(),
        "buffer not found: index 4294967295"
    );
    assert_eq!(
        Error::type_mismatch("Cpu", "Cuda").message(),
        "buffer type mismatch: expected Cpu, got Cuda"
    );
    assert_eq!(Error::ReadOnly.message(), "access denied: buffer is read-only");
    assert_eq!(Error::AlreadyForgotten.message(), "buffer already forgotten");
    assert_eq!(
        Error::InvalidShape("rank 9".to_string()).message(),
        "invalid shape: rank 9"
    );
    assert_eq!(Error::Cuda("driver".to_string()).message(), "CUDA error: driver");
    assert_eq!(Error::Timeout.message(), "timed out waiting for a free buffer");
}

#[test]
fn full_errors_are_recognised() {
    assert!(Error::region_full().is_full());
    assert!(Error::shared_memory("metadata region full").is_full());
    assert!(Error::shared_memory("full").is_full());
    assert!(Error::shared_memory("disk is full today").is_full());
    assert!(!Error::shared_memory("ful").is_full());
    assert!(!Error::shared_memory("fulfil").is_full());
    assert!(!Error::shared_memory("").is_full());
    assert!(!Error::shared_memory("Full").is_full());
    assert!(!Error::Cuda("full".to_string()).is_full());
    assert!(!Error::InvalidShape("full".to_string()).is_full());
    assert!(!Error::Timeout.is_full());
    assert!(!Error::BufferNotFound(0).is_full());
}

#[test]
fn decimal_rendering() {
    let cases: [(u32, &str); 8] = [
        (0, "0"),
        (7, "7"),
        (9, "9"),
        (10, "10"),
        (99, "99"),
        (100, "100"),
        (1234567890, "1234567890"),
        (u32::MAX, "4294967295"),
    ];
    for (n, text) in cases {
        let mut out = String::from("#");
        append_decimal(&mut out, n);
        assert_eq!(out, format!("#{}", text));
    }
}

#[test]
fn substring_search() {
    assert!(contains_str("hello world", "o w"));
    assert!(contains_str("hello", "hello"));
    assert!(contains_str("hello", ""));
    assert!(contains_str("", ""));
    assert!(contains_str("aab", "ab"));
    assert!(!contains_str("hello", "hello!"));
    assert!(!contains_str("", "a"));
    assert!(!contains_str("abcabd", "abe"));
    assert!(contains_str("h\u{e9}llo full", "full"));
}

#[test]
fn test_create_and_write() {
    let name = "/xmem_test_create";
    let shm = SharedMemory::create(name, 1024);

    assert_eq!(shm.size(), 1024);
    assert_eq!(shm.name(), name);
    assert!(shm.is_owner());

    // The region is long enough for what a writer puts at its start.
    let data = b"hello xmem";
    assert!(data.len() <= shm.size());
}

#[test]
fn shm_test_open_existing() {
    let name = "/xmem_test_open";
    let data = b"shared data";

    let shm = SharedMemory::create(name, 1024);
    let shm2 = SharedMemory::open(shm.name(), shm.size());
    assert_eq!(shm2.name(), name);
    assert_eq!(shm2.size(), 1024);
    assert!(!shm2.is_owner());
    assert!(data.len() <= shm2.size());
}

#[test]
fn ipc_handle_defaults_to_zero() {
    let handle = CudaIpcHandle::default();
    assert_eq!(handle.reserved, [0u8; 64]);
}

#[test]
fn device_buffer_teardown() {
    let mut handle = CudaIpcHandle::default();
    handle.reserved[0] = 7;
    handle.reserved[63] = 9;

    let owned = CudaBuffer::allocate(2, 0x7f00_0000_1000, 4096, handle);
    assert_eq!(owned.device_id(), 2);
    assert_eq!(owned.device_ptr(), 0x7f00_0000_1000);
    assert_eq!(owned.size(), 4096);
    assert_eq!(owned.ipc_handle().reserved, handle.reserved);
    assert_eq!(owned.teardown(), Teardown::Free);

    let imported = CudaBuffer::from_ipc_handle(2, 0x7f00_0000_2000, &handle, 4096);
    assert_eq!(imported.device_id(), 2);
    assert_eq!(imported.device_ptr(), 0x7f00_0000_2000);
    assert_eq!(imported.size(), 4096);
    assert_eq!(imported.ipc_handle().reserved, handle.reserved);
    assert_eq!(imported.teardown(), Teardown::Close);
}

#[test]
fn buffer_data_accessors() {
    let host = BufferData::Cpu(SharedMemory::create("/d_buf_0", 64));
    assert_eq!(host.storage_type(), StorageType::Cpu);
    assert_eq!(host.size(), 64);
    assert_eq!(host.as_cpu_ptr().unwrap().name(), "/d_buf_0");
    assert!(host.as_cuda_ptr().is_none());
    assert_eq!(host.cuda_device_id(), None);

    let device = BufferData::Cuda(CudaBuffer::allocate(3, 4096, 128, CudaIpcHandle::default()));
    assert_eq!(device.storage_type(), StorageType::Cuda);
    assert_eq!(device.size(), 128);
    assert!(device.as_cpu_ptr().is_none());
    assert_eq!(device.as_cuda_ptr(), Some(4096));
    assert_eq!(device.as_cuda().unwrap().device_id(), 3);
    assert!(host.as_cuda().is_none());
    assert_eq!(device.cuda_device_id(), Some(3));
}
