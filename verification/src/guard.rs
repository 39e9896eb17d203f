//! The handle of one buffer.

use crate::buffer::BufferData;
use crate::error::Error;
use crate::shm::SharedMemory;
use crate::storage::AccessMode;
use vstd::prelude::*;

verus! {

/// A handle of one buffer: the slot it refers to, how it may access the
/// bytes, the backing it holds, and whether it still owes the slot one
/// release.
///
/// A handle owns one unit of the slot's reference count from the moment the
/// pool hands it out.  Giving the handle back to the pool returns that unit;
/// [`BufferGuard::forget`] gives the handle up and leaves the unit with the
/// slot, for another process to take over.
#[derive(Debug)]
pub struct BufferGuard {
    data: Option<BufferData>,
    meta_index: u32,
    mode: AccessMode,
    should_release: bool,
}

impl BufferGuard {
    /// The slot the handle refers to.
    pub closed spec fn index(&self) -> u32 {
        self.meta_index
    }

    /// How the handle may access the bytes.
    pub closed spec fn access(&self) -> AccessMode {
        self.mode
    }

    /// The backing the handle holds, if it has not given it away.
    pub closed spec fn backing(&self) -> Option<BufferData> {
        self.data
    }

    /// The device address that the handle gives out, if it holds a device
    /// buffer.
    pub open spec fn as_cuda_view(&self) -> Option<u64> {
        match self.backing() {
            Some(BufferData::Cuda(buf)) => Some(buf.spec_ptr()),
            _ => None,
        }
    }

    /// The handle still owes its slot one release when it is given back.
    pub closed spec fn owes_release(&self) -> bool {
        self.should_release && self.data is Some
    }

    /// A handle of slot `meta_index` over `data`, owing the slot one release.
    pub fn new(data: BufferData, meta_index: u32, mode: AccessMode) -> (guard: BufferGuard)
        ensures
            guard.index() == meta_index,
            guard.access() == mode,
            guard.backing() == Some(data),
            guard.owes_release(),
    {
        BufferGuard { data: Some(data), meta_index, mode, should_release: true }
    }

    /// The slot the handle refers to: the index a peer needs to reach the
    /// same buffer.
    pub fn meta_index(&self) -> (i: u32)
        ensures
            i == self.index(),
    {
        self.meta_index
    }

    /// How the handle may access the bytes.
    pub fn mode(&self) -> (m: AccessMode)
        ensures
            m == self.access(),
    {
        self.mode
    }

    /// Whether the handle still holds its backing.
    pub fn is_valid(&self) -> (b: bool)
        ensures
            b == self.backing() is Some,
    {
        self.data.is_some()
    }

    /// Whether giving the handle back lowers the slot's reference count.
    pub fn releases(&self) -> (b: bool)
        ensures
            b == self.owes_release(),
    {
        self.should_release && self.data.is_some()
    }

    /// The host region whose bytes the handle may read.
    ///
    /// Fails with `AlreadyForgotten` when the handle holds no backing, and
    /// with `TypeMismatch` when the backing is a device allocation.
    pub fn as_cpu_slice(&self) -> (r: Result<&SharedMemory, Error>)
        ensures
            match self.backing() {
                None => r == Err::<&SharedMemory, Error>(Error::AlreadyForgotten),
                Some(BufferData::Cuda(_)) => r matches Err(e) && e.is_type_mismatch(
                    "Cpu"@,
                    "Cuda"@,
                ),
                Some(BufferData::Cpu(shm)) => r == Ok::<&SharedMemory, Error>(&shm),
            },
    {
        match &self.data {
            None => Err(Error::AlreadyForgotten),
            Some(data) => match data.as_cpu_ptr() {
                None => Err(Error::type_mismatch("Cpu", "Cuda")),
                Some(shm) => Ok(shm),
            },
        }
    }

    /// The host region whose bytes the handle may write.
    ///
    /// Fails with `ReadOnly` when the handle is read-only, whatever it
    /// holds; otherwise as [`BufferGuard::as_cpu_slice`] does.
    pub fn as_cpu_slice_mut(&mut self) -> (r: Result<&SharedMemory, Error>)
        ensures
            *final(self) == *old(self),
            match (old(self).access(), old(self).backing()) {
                (AccessMode::ReadOnly, _) => r == Err::<&SharedMemory, Error>(Error::ReadOnly),
                (AccessMode::ReadWrite, None) => r == Err::<&SharedMemory, Error>(
                    Error::AlreadyForgotten,
                ),
                (AccessMode::ReadWrite, Some(BufferData::Cuda(_))) => r matches Err(e)
                    && e.is_type_mismatch("Cpu"@, "Cuda"@),
                (AccessMode::ReadWrite, Some(BufferData::Cpu(shm))) => r == Ok::<
                    &SharedMemory,
                    Error,
                >(&shm),
            },
    {
        if self.mode == AccessMode::ReadOnly {
            return Err(Error::ReadOnly);
        }
        self.as_cpu_slice()
    }

    /// The backing the handle holds, if it has not given it away.
    pub fn data(&self) -> (d: Option<&BufferData>)
        ensures
            match self.backing() {
                None => d is None,
                Some(data) => d == Some(&data),
            },
    {
        self.data.as_ref()
    }

    /// The device address at which the handle may read.
    ///
    /// Fails with `AlreadyForgotten` when the handle holds no backing, and
    /// with `TypeMismatch` when the backing is a host region.
    pub fn as_cuda_ptr(&self) -> (r: Result<u64, Error>)
        ensures
            match self.backing() {
                None => r == Err::<u64, Error>(Error::AlreadyForgotten),
                Some(BufferData::Cpu(_)) => r matches Err(e) && e.is_type_mismatch(
                    "Cuda"@,
                    "Cpu"@,
                ),
                Some(BufferData::Cuda(buf)) => r == Ok::<u64, Error>(buf.spec_ptr()),
            },
    {
        match &self.data {
            None => Err(Error::AlreadyForgotten),
            Some(data) => match data.as_cuda_ptr() {
                None => Err(Error::type_mismatch("Cuda", "Cpu")),
                Some(ptr) => Ok(ptr),
            },
        }
    }

    /// The device address at which the handle may write.
    ///
    /// Fails with `ReadOnly` when the handle is read-only, whatever it
    /// holds; otherwise as [`BufferGuard::as_cuda_ptr`] does.
    pub fn as_cuda_ptr_mut(&mut self) -> (r: Result<u64, Error>)
        ensures
            *final(self) == *old(self),
            match (old(self).access(), old(self).backing()) {
                (AccessMode::ReadOnly, _) => r == Err::<u64, Error>(Error::ReadOnly),
                (AccessMode::ReadWrite, None) => r == Err::<u64, Error>(Error::AlreadyForgotten),
                (AccessMode::ReadWrite, Some(BufferData::Cpu(_))) => r matches Err(e)
                    && e.is_type_mismatch("Cuda"@, "Cpu"@),
                (AccessMode::ReadWrite, Some(BufferData::Cuda(buf))) => r == Ok::<u64, Error>(
                    buf.spec_ptr(),
                ),
            },
    {
        if self.mode == AccessMode::ReadOnly {
            return Err(Error::ReadOnly);
        }
        self.as_cuda_ptr()
    }

    /// Gives the handle up without releasing its slot: the handle lets go of
    /// its backing and is left owing nothing, so the slot keeps the unit of
    /// reference count the handle held.
    pub fn forget(self) -> (rest: BufferGuard)
        ensures
            rest.index() == self.index(),
            rest.access() == self.access(),
            rest.backing() is None,
            !rest.owes_release(),
    {
        BufferGuard {
            data: None,
            meta_index: self.meta_index,
            mode: self.mode,
            should_release: false,
        }
    }
}

} // verus!
