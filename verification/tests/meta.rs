use xmem_core::meta::{record_offset, Field, HeaderField, HEADER_SIZE, LABEL_SIZE};
use xmem_core::meta::CUDA_IPC_HANDLE_SIZE;
use xmem_core::{BufferMeta, Error, MAX_NDIM};

#[test]
fn test_meta_size() {
    // The record size is part of the cross-process format.
    assert!(BufferMeta::SIZE > 0);
    println!("BufferMeta size: {} bytes", BufferMeta::SIZE);
}

#[test]
fn record_layout_is_fixed() {
    assert_eq!(BufferMeta::SIZE, 360);
    assert_eq!(MAX_NDIM, 8);
    assert_eq!(LABEL_SIZE, 32);
    assert_eq!(CUDA_IPC_HANDLE_SIZE, 64);
    let fields = [
        (Field::Id, 0, 4),
        (Field::RefCount, 4, 4),
        (Field::StorageType, 8, 1),
        (Field::DeviceId, 9, 1),
        (Field::Dtype, 10, 1),
        (Field::Ndim, 11, 1),
        (Field::Shape, 16, 64),
        (Field::Strides, 80, 64),
        (Field::Size, 144, 8),
        (Field::Timestamp, 152, 8),
        (Field::Sequence, 160, 8),
        (Field::ContentType, 168, 32),
        (Field::Producer, 200, 32),
        (Field::CudaIpcHandle, 232, 64),
        (Field::NextFree, 296, 4),
    ];
    for (field, offset, width) in fields {
        assert_eq!(field.offset(), offset, "{:?}", field);
        assert_eq!(field.width(), width, "{:?}", field);
    }
}

#[test]
fn record_fields_do_not_overlap() {
    let fields = [
        Field::Id,
        Field::RefCount,
        Field::StorageType,
        Field::DeviceId,
        Field::Dtype,
        Field::Ndim,
        Field::Shape,
        Field::Strides,
        Field::Size,
        Field::Timestamp,
        Field::Sequence,
        Field::ContentType,
        Field::Producer,
        Field::CudaIpcHandle,
        Field::NextFree,
    ];
    for (i, a) in fields.iter().enumerate() {
        assert!(a.offset() + a.width() <= BufferMeta::SIZE);
        for b in fields.iter().skip(i + 1) {
            assert!(a.offset() + a.width() <= b.offset(), "{:?} and {:?}", a, b);
        }
    }
}

#[test]
fn header_layout_is_fixed() {
    assert_eq!(HEADER_SIZE, 32);
    assert_eq!(HeaderField::Magic.offset(), 0);
    assert_eq!(HeaderField::Version.offset(), 4);
    assert_eq!(HeaderField::Capacity.offset(), 8);
    assert_eq!(HeaderField::NextId.offset(), 12);
    assert_eq!(HeaderField::Allocated.offset(), 16);
    assert_eq!(HeaderField::FreeHead.offset(), 20);
    assert_eq!(HeaderField::Waiters.offset(), 24);
}

#[test]
fn record_offsets_follow_the_header() {
    assert_eq!(record_offset(0, 4), Ok(32));
    assert_eq!(record_offset(1, 4), Ok(392));
    assert_eq!(record_offset(3, 4), Ok(32 + 3 * 360));
    assert_eq!(record_offset(4, 4), Err(Error::BufferNotFound(4)));
    assert_eq!(record_offset(0, 0), Err(Error::BufferNotFound(0)));
    assert_eq!(
        record_offset(u32::MAX - 1, u32::MAX),
        Ok(32 + (u32::MAX as u64 - 1) * 360)
    );
}

#[test]
fn zeroed_record_is_all_zero() {
    let meta = BufferMeta::zeroed();
    assert_eq!(meta.id, 0);
    assert_eq!(meta.ref_count, 0);
    assert_eq!(meta.storage_type, 0);
    assert_eq!(meta.device_id, 0);
    assert_eq!(meta.dtype, 0);
    assert_eq!(meta.ndim, 0);
    assert_eq!(meta.shape, [0u64; 8]);
    assert_eq!(meta.strides, [0u64; 8]);
    assert_eq!(meta.size, 0);
    assert_eq!(meta.timestamp, 0);
    assert_eq!(meta.seq, 0);
    assert_eq!(meta.content_type, [0u8; 32]);
    assert_eq!(meta.producer, [0u8; 32]);
    assert_eq!(meta.cuda_ipc_handle, [0u8; 64]);
    assert_eq!(meta.next_free, 0);
}
