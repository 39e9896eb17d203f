//! The backing of a buffer.

use crate::cuda::CudaBuffer;
use crate::shm::SharedMemory;
use crate::storage::StorageType;
use vstd::prelude::*;

verus! {

/// What backs a buffer: a shared host region or a device allocation.
#[derive(Debug)]
pub enum BufferData {
    Cpu(SharedMemory),
    Cuda(CudaBuffer),
}

impl BufferData {
    /// The storage kind of the backing.
    pub open spec fn kind(&self) -> StorageType {
        match self {
            BufferData::Cpu(_) => StorageType::Cpu,
            BufferData::Cuda(_) => StorageType::Cuda,
        }
    }

    /// Length of the backing in bytes.
    pub open spec fn len(&self) -> nat {
        match self {
            BufferData::Cpu(shm) => shm.spec_size(),
            BufferData::Cuda(buf) => buf.spec_size(),
        }
    }

    /// The storage kind of the backing.
    pub fn storage_type(&self) -> (kind: StorageType)
        ensures
            kind == self.kind(),
    {
        match self {
            BufferData::Cpu(_) => StorageType::Cpu,
            BufferData::Cuda(_) => StorageType::Cuda,
        }
    }

    /// Length of the backing in bytes.
    pub fn size(&self) -> (n: usize)
        ensures
            n == self.len(),
    {
        match self {
            BufferData::Cpu(shm) => shm.size(),
            BufferData::Cuda(buf) => buf.size(),
        }
    }

    /// The host region behind the buffer, if it is a host buffer.
    pub fn as_cpu_ptr(&self) -> (r: Option<&SharedMemory>)
        ensures
            match self {
                BufferData::Cpu(shm) => r == Some(shm),
                BufferData::Cuda(_) => r is None,
            },
    {
        match self {
            BufferData::Cpu(shm) => Some(shm),
            BufferData::Cuda(_) => None,
        }
    }

    /// The device address of the buffer, if it is a device buffer.
    pub fn as_cuda_ptr(&self) -> (r: Option<u64>)
        ensures
            match self {
                BufferData::Cpu(_) => r is None,
                BufferData::Cuda(buf) => r == Some(buf.spec_ptr()),
            },
    {
        match self {
            BufferData::Cpu(_) => None,
            BufferData::Cuda(buf) => Some(buf.device_ptr()),
        }
    }

    /// The device allocation behind the buffer, if it is a device buffer.
    pub fn as_cuda(&self) -> (r: Option<&CudaBuffer>)
        ensures
            match self {
                BufferData::Cpu(_) => r is None,
                BufferData::Cuda(buf) => r == Some(buf),
            },
    {
        match self {
            BufferData::Cpu(_) => None,
            BufferData::Cuda(buf) => Some(buf),
        }
    }

    /// The device ordinal of the buffer, if it is a device buffer.
    pub fn cuda_device_id(&self) -> (r: Option<i32>)
        ensures
            match self {
                BufferData::Cpu(_) => r is None,
                BufferData::Cuda(buf) => r == Some(buf.spec_device_id()),
            },
    {
        match self {
            BufferData::Cpu(_) => None,
            BufferData::Cuda(buf) => Some(buf.device_id()),
        }
    }
}

} // verus!
