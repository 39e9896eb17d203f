//! Descriptor of a device allocation and of the handle that shares it.

use crate::meta::CUDA_IPC_HANDLE_SIZE;
use vstd::prelude::*;

verus! {

/// An IPC memory handle of the device driver: 64 opaque bytes that a peer
/// process can import to reach the same device allocation.
#[derive(Debug, Clone, Copy, PartialEq, Eq)]
pub struct CudaIpcHandle {
    pub reserved: [u8; CUDA_IPC_HANDLE_SIZE],
}

impl Default for CudaIpcHandle {
    /// The handle of all zero bytes.
    fn default() -> (h: CudaIpcHandle)
        ensures
            forall|i: int| 0 <= i < CUDA_IPC_HANDLE_SIZE ==> h.reserved[i] == 0,
    {
        CudaIpcHandle { reserved: [0u8; CUDA_IPC_HANDLE_SIZE] }
    }
}

/// What a process owes the driver when it lets go of a device buffer.
#[derive(Debug, Clone, Copy, PartialEq, Eq, Structural)]
pub enum Teardown {
    /// The process allocated the memory: it frees it.
    Free,
    /// The process imported the memory: it closes its import.
    Close,
}

/// A device allocation, as this process holds it: the device, the address
/// the driver gave for it in this process, the length, the IPC handle that
/// shares it, and whether this process allocated or imported it.
#[derive(Debug, Clone, Copy)]
pub struct CudaBuffer {
    device_id: i32,
    ptr: u64,
    size: usize,
    ipc_handle: CudaIpcHandle,
    is_ipc_imported: bool,
}

impl CudaBuffer {
    /// Ordinal of the device.
    pub closed spec fn spec_device_id(&self) -> i32 {
        self.device_id
    }

    /// Address of the allocation in this process, as the driver gave it.
    pub closed spec fn spec_ptr(&self) -> u64 {
        self.ptr
    }

    /// Length of the allocation in bytes.
    pub closed spec fn spec_size(&self) -> nat {
        self.size as nat
    }

    /// The handle that shares the allocation.
    pub closed spec fn spec_ipc_handle(&self) -> CudaIpcHandle {
        self.ipc_handle
    }

    /// Whether this process imported the allocation from a peer.
    pub closed spec fn spec_imported(&self) -> bool {
        self.is_ipc_imported
    }

    /// Describes `size` bytes that this process allocated on device
    /// `device_id`, that the driver put at `ptr` and exported as
    /// `ipc_handle`.
    pub fn allocate(device_id: i32, ptr: u64, size: usize, ipc_handle: CudaIpcHandle) -> (buf:
        CudaBuffer)
        ensures
            buf.spec_device_id() == device_id,
            buf.spec_ptr() == ptr,
            buf.spec_size() == size,
            buf.spec_ipc_handle() == ipc_handle,
            !buf.spec_imported(),
    {
        CudaBuffer { device_id, ptr, size, ipc_handle, is_ipc_imported: false }
    }

    /// Describes `size` bytes on device `device_id` that this process
    /// imported through `handle` and that the driver put at `ptr`.
    pub fn from_ipc_handle(device_id: i32, ptr: u64, handle: &CudaIpcHandle, size: usize) -> (buf:
        CudaBuffer)
        ensures
            buf.spec_device_id() == device_id,
            buf.spec_ptr() == ptr,
            buf.spec_size() == size,
            buf.spec_ipc_handle() == *handle,
            buf.spec_imported(),
    {
        CudaBuffer { device_id, ptr, size, ipc_handle: *handle, is_ipc_imported: true }
    }

    /// Ordinal of the device.
    pub fn device_id(&self) -> (d: i32)
        ensures
            d == self.spec_device_id(),
    {
        self.device_id
    }

    /// Address of the allocation in this process.
    pub fn device_ptr(&self) -> (p: u64)
        ensures
            p == self.spec_ptr(),
    {
        self.ptr
    }

    /// Length of the allocation in bytes.
    pub fn size(&self) -> (n: usize)
        ensures
            n == self.spec_size(),
    {
        self.size
    }

    /// The handle that shares the allocation.
    pub fn ipc_handle(&self) -> (h: &CudaIpcHandle)
        ensures
            *h == self.spec_ipc_handle(),
    {
        &self.ipc_handle
    }

    /// What this process owes the driver for the buffer: an importer closes
    /// its import and never frees, the allocator frees.
    pub fn teardown(&self) -> (t: Teardown)
        ensures
            t == (if self.spec_imported() {
                Teardown::Close
            } else {
                Teardown::Free
            }),
    {
        if self.is_ipc_imported {
            Teardown::Close
        } else {
            Teardown::Free
        }
    }
}

} // verus!
