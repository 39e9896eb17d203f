//! Descriptor of a named shared region.

use vstd::prelude::*;
use vstd::string::*;

verus! {

/// A named region of shared bytes, as this process holds it: its name, its
/// length, and whether this process created it.
///
/// The descriptor carries no address.  The binding that maps the region
/// keeps the mapping beside it and reads the length of every view from here.
#[derive(Debug)]
pub struct SharedMemory {
    name: String,
    size: usize,
    owner: bool,
}

impl SharedMemory {
    /// The name the region is known by to every process.
    pub closed spec fn spec_name(&self) -> Seq<char> {
        self.name@
    }

    /// Length of the region in bytes.
    pub closed spec fn spec_size(&self) -> nat {
        self.size as nat
    }

    /// Whether this process created the region.
    pub closed spec fn spec_owner(&self) -> bool {
        self.owner
    }

    /// Describes a region of `size` bytes that this process created under
    /// `name`.
    pub fn create(name: &str, size: usize) -> (shm: SharedMemory)
        ensures
            shm.spec_name() == name@,
            shm.spec_size() == size,
            shm.spec_owner(),
    {
        SharedMemory { name: String::from_str(name), size, owner: true }
    }

    /// Describes a region that this process opened under `name` and found to
    /// be `len` bytes long.
    pub fn open(name: &str, len: usize) -> (shm: SharedMemory)
        ensures
            shm.spec_name() == name@,
            shm.spec_size() == len,
            !shm.spec_owner(),
    {
        SharedMemory { name: String::from_str(name), size: len, owner: false }
    }

    /// The name of the region.
    pub fn name(&self) -> (n: &str)
        ensures
            n@ == self.spec_name(),
    {
        self.name.as_str()
    }

    /// Length of the region in bytes.
    pub fn size(&self) -> (n: usize)
        ensures
            n == self.spec_size(),
    {
        self.size
    }

    /// Whether this process created the region.
    pub fn is_owner(&self) -> (b: bool)
        ensures
            b == self.spec_owner(),
    {
        self.owner
    }
}

} // verus!
