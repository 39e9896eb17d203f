//! The layout of the metadata region: the header, and the record of one
//! buffer.
//!
//! The bytes of the region are what cooperating processes share, so the
//! offsets here are fixed: the header takes the first [`HEADER_SIZE`] bytes
//! and the records follow it, [`BufferMeta::SIZE`] bytes each.  Multi-byte
//! fields are in the byte order of the machine.

use crate::error::Error;
use vstd::prelude::*;

verus! {

/// Bytes the header takes at the start of the region.
pub const HEADER_SIZE: usize = 32;

/// The words of the header, in the order they lie in the region.  Each is
/// 32 bits wide; the last four bytes of the header are reserved.
#[derive(Debug, Clone, Copy, PartialEq, Eq, Structural)]
pub enum HeaderField {
    Magic,
    Version,
    Capacity,
    NextId,
    Allocated,
    FreeHead,
    Waiters,
}

impl HeaderField {
    /// Offset of the word from the start of the region.
    pub open spec fn start(self) -> nat {
        match self {
            HeaderField::Magic => 0,
            HeaderField::Version => 4,
            HeaderField::Capacity => 8,
            HeaderField::NextId => 12,
            HeaderField::Allocated => 16,
            HeaderField::FreeHead => 20,
            HeaderField::Waiters => 24,
        }
    }

    /// Offset of the word from the start of the region.
    pub fn offset(&self) -> (o: usize)
        ensures
            o == self.start(),
    {
        match self {
            HeaderField::Magic => 0,
            HeaderField::Version => 4,
            HeaderField::Capacity => 8,
            HeaderField::NextId => 12,
            HeaderField::Allocated => 16,
            HeaderField::FreeHead => 20,
            HeaderField::Waiters => 24,
        }
    }
}

/// The header layout is sound: every word lies inside the header and is
/// aligned, two different words share no byte, and the header's size keeps
/// the first record aligned.
pub proof fn lemma_header_words_disjoint(a: HeaderField, b: HeaderField)
    ensures
        a.start() + 4 <= HEADER_SIZE,
        a.start() % 4 == 0,
        HEADER_SIZE as nat % 8 == 0,
        a != b ==> a.start() + 4 <= b.start() || b.start() + 4 <= a.start(),
{
}

/// Where the record of slot `index` starts in a region.
pub open spec fn record_start(index: u32) -> nat {
    HEADER_SIZE as nat + index as nat * BufferMeta::SIZE as nat
}

/// Offset of the record of slot `index` from the start of a region of
/// `capacity` slots, or `BufferNotFound` when the index is not below the
/// capacity.
pub fn record_offset(index: u32, capacity: u32) -> (r: Result<u64, Error>)
    ensures
        if index < capacity {
            r == Ok::<u64, Error>(record_start(index) as u64) && record_start(index) <= u64::MAX
        } else {
            r == Err::<u64, Error>(Error::BufferNotFound(index))
        },
{
    if index >= capacity {
        return Err(Error::BufferNotFound(index));
    }
    let size: u64 = BufferMeta::SIZE as u64;
    assert(index as u64 * size <= 0xFFFF_FFFF * 360) by (nonlinear_arith)
        requires
            index <= 0xFFFF_FFFFu32,
            size == 360,
    ;
    Ok(HEADER_SIZE as u64 + (index as u64) * size)
}

/// Records do not overlap each other or the header: the record of a lower
/// slot ends where that of the next begins or before.
pub proof fn lemma_records_disjoint(i: u32, j: u32)
    ensures
        HEADER_SIZE <= record_start(i),
        i < j ==> record_start(i) + BufferMeta::SIZE <= record_start(j),
{
    assert(i < j ==> (i as nat + 1) * (BufferMeta::SIZE as nat) <= j as nat * (
    BufferMeta::SIZE as nat)) by (nonlinear_arith);
}

/// Largest number of dimensions a record can describe.
pub const MAX_NDIM: usize = 8;

/// Length in bytes of a device IPC handle.
pub const CUDA_IPC_HANDLE_SIZE: usize = 64;

/// Length in bytes of the two label fields of a record.
pub const LABEL_SIZE: usize = 32;

/// One metadata record, as plain values.
///
/// In the shared region every numeric field is one atomic word; the label
/// bytes and the IPC handle are written once, by whoever acquires the slot.
#[derive(Debug, Clone, Copy)]
pub struct BufferMeta {
    /// The slot's own index, set when the slot is acquired.
    pub id: u32,
    /// Number of live handles across all processes.
    pub ref_count: i32,
    /// Storage kind: 0 is host, 1 is device.
    pub storage_type: u8,
    /// Device ordinal of a device buffer, 0 for a host buffer.
    pub device_id: u8,
    /// Element type hint, not interpreted by the pool.
    pub dtype: u8,
    /// Number of dimensions, not interpreted by the pool.
    pub ndim: u8,
    /// Shape hint.
    pub shape: [u64; MAX_NDIM],
    /// Stride hint, in bytes.
    pub strides: [u64; MAX_NDIM],
    /// Payload length in bytes.
    pub size: u64,
    /// Producer's timestamp, in milliseconds.
    pub timestamp: u64,
    /// Producer's sequence number.
    pub seq: u64,
    /// NUL-terminated content label.
    pub content_type: [u8; LABEL_SIZE],
    /// NUL-terminated producer label.
    pub producer: [u8; LABEL_SIZE],
    /// Device IPC handle, meaningful only for a device buffer.
    pub cuda_ipc_handle: [u8; CUDA_IPC_HANDLE_SIZE],
    /// Successor on the free list, meaningful only while the slot is free.
    pub next_free: u32,
}

impl BufferMeta {
    /// Bytes one record takes in the region.
    pub const SIZE: usize = 360;

    /// The record of a slot in a freshly created region: every byte zero.
    pub fn zeroed() -> (m: BufferMeta)
        ensures
            m.id == 0,
            m.ref_count == 0,
            m.storage_type == 0,
            m.device_id == 0,
            m.dtype == 0,
            m.ndim == 0,
            m.size == 0,
            m.timestamp == 0,
            m.seq == 0,
            m.next_free == 0,
            forall|i: int| 0 <= i < MAX_NDIM ==> m.shape[i] == 0 && m.strides[i] == 0,
            forall|i: int| 0 <= i < LABEL_SIZE ==> m.content_type[i] == 0 && m.producer[i] == 0,
            forall|i: int| 0 <= i < CUDA_IPC_HANDLE_SIZE ==> m.cuda_ipc_handle[i] == 0,
    {
        BufferMeta {
            id: 0,
            ref_count: 0,
            storage_type: 0,
            device_id: 0,
            dtype: 0,
            ndim: 0,
            shape: [0u64; MAX_NDIM],
            strides: [0u64; MAX_NDIM],
            size: 0,
            timestamp: 0,
            seq: 0,
            content_type: [0u8; LABEL_SIZE],
            producer: [0u8; LABEL_SIZE],
            cuda_ipc_handle: [0u8; CUDA_IPC_HANDLE_SIZE],
            next_free: 0,
        }
    }
}

/// The fields of a record, in the order they lie in the region.
#[derive(Debug, Clone, Copy, PartialEq, Eq, Structural)]
pub enum Field {
    Id,
    RefCount,
    StorageType,
    DeviceId,
    Dtype,
    Ndim,
    Shape,
    Strides,
    Size,
    Timestamp,
    Sequence,
    ContentType,
    Producer,
    CudaIpcHandle,
    NextFree,
}

impl Field {
    /// Offset of the field from the start of its record.
    pub open spec fn start(self) -> nat {
        match self {
            Field::Id => 0,
            Field::RefCount => 4,
            Field::StorageType => 8,
            Field::DeviceId => 9,
            Field::Dtype => 10,
            Field::Ndim => 11,
            Field::Shape => 16,
            Field::Strides => 80,
            Field::Size => 144,
            Field::Timestamp => 152,
            Field::Sequence => 160,
            Field::ContentType => 168,
            Field::Producer => 200,
            Field::CudaIpcHandle => 232,
            Field::NextFree => 296,
        }
    }

    /// Length of the field in bytes.
    pub open spec fn len(self) -> nat {
        match self {
            Field::Id | Field::RefCount | Field::NextFree => 4,
            Field::StorageType | Field::DeviceId | Field::Dtype | Field::Ndim => 1,
            Field::Shape | Field::Strides => 64,
            Field::Size | Field::Timestamp | Field::Sequence => 8,
            Field::ContentType | Field::Producer => 32,
            Field::CudaIpcHandle => 64,
        }
    }

    /// Alignment the field's words need: the width of one word of it.
    pub open spec fn align(self) -> nat {
        match self {
            Field::Id | Field::RefCount | Field::NextFree => 4,
            Field::Shape | Field::Strides | Field::Size | Field::Timestamp | Field::Sequence => 8,
            _ => 1,
        }
    }

    /// Offset of the field from the start of its record.
    pub fn offset(&self) -> (o: usize)
        ensures
            o == self.start(),
    {
        match self {
            Field::Id => 0,
            Field::RefCount => 4,
            Field::StorageType => 8,
            Field::DeviceId => 9,
            Field::Dtype => 10,
            Field::Ndim => 11,
            Field::Shape => 16,
            Field::Strides => 80,
            Field::Size => 144,
            Field::Timestamp => 152,
            Field::Sequence => 160,
            Field::ContentType => 168,
            Field::Producer => 200,
            Field::CudaIpcHandle => 232,
            Field::NextFree => 296,
        }
    }

    /// Length of the field in bytes.
    pub fn width(&self) -> (w: usize)
        ensures
            w == self.len(),
    {
        match self {
            Field::Id | Field::RefCount | Field::NextFree => 4,
            Field::StorageType | Field::DeviceId | Field::Dtype | Field::Ndim => 1,
            Field::Shape | Field::Strides => 64,
            Field::Size | Field::Timestamp | Field::Sequence => 8,
            Field::ContentType | Field::Producer => 32,
            Field::CudaIpcHandle => 64,
        }
    }
}

/// The record layout is sound: every field lies inside the record and is
/// aligned for its words, the record size keeps the next record aligned, and
/// two different fields share no byte.
pub proof fn lemma_fields_disjoint(a: Field, b: Field)
    ensures
        a.start() + a.len() <= BufferMeta::SIZE,
        a.start() % a.align() == 0,
        BufferMeta::SIZE as nat % 8 == 0,
        a != b ==> a.start() + a.len() <= b.start() || b.start() + b.len() <= a.start(),
{
}

} // verus!
