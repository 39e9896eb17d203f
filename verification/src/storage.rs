//! Storage kinds and access modes.

use vstd::prelude::*;

verus! {

/// Where a buffer's bytes live.
#[derive(Debug, Clone, Copy, PartialEq, Eq, Structural)]
pub enum StorageType {
    /// Host memory: one named shared region per buffer.
    Cpu,
    /// Device memory, shared through an exported IPC handle.
    Cuda,
}

impl StorageType {
    /// The byte that stands for this storage kind in a metadata record.
    pub open spec fn code(self) -> u8 {
        match self {
            StorageType::Cpu => 0,
            StorageType::Cuda => 1,
        }
    }

    /// Decodes a `storage_kind` byte: 0 is host, 1 is device, anything else
    /// is no storage kind.
    pub fn from_u8(v: u8) -> (r: Option<StorageType>)
        ensures
            r is Some <==> v <= 1,
            r matches Some(s) ==> s.code() == v,
    {
        match v {
            0 => Some(StorageType::Cpu),
            1 => Some(StorageType::Cuda),
            _ => None,
        }
    }

    /// Encodes this storage kind as its `storage_kind` byte.
    pub fn to_u8(&self) -> (v: u8)
        ensures
            v == self.code(),
    {
        match self {
            StorageType::Cpu => 0,
            StorageType::Cuda => 1,
        }
    }
}

/// What a handle may do with the bytes of its buffer.
#[derive(Debug, Clone, Copy, PartialEq, Eq, Structural)]
pub enum AccessMode {
    ReadOnly,
    ReadWrite,
}

} // verus!
