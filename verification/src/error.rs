//! Error kinds of the pool.

use crate::text::{append_decimal, contains, contains_str, decimal};
use vstd::prelude::*;
use vstd::string::*;

verus! {

/// What an operation of the pool can fail with.
#[derive(Debug, PartialEq, Eq)]
pub enum Error {
    /// A region could not be created or opened, its header was rejected, or
    /// the metadata region has no slot left.
    SharedMemory(String),
    /// The index names no slot of the metadata region.
    BufferNotFound(u32),
    /// A host view was asked of a device buffer, or the reverse.
    TypeMismatch { expected: String, actual: String },
    /// A mutable view was asked of a read-only handle.
    ReadOnly,
    /// The handle has given its buffer away.
    AlreadyForgotten,
    /// Reserved for shape checks of higher layers.
    InvalidShape(String),
    /// The device driver reported a failure.
    Cuda(String),
    /// A blocking acquisition ran past its deadline.
    Timeout,
}

impl Error {
    /// This error is `SharedMemory` and carries exactly `detail`.
    pub open spec fn is_shared_memory(self, detail: Seq<char>) -> bool {
        self matches Error::SharedMemory(m) && m@ == detail
    }

    /// This error is `TypeMismatch` between the two named storage kinds.
    pub open spec fn is_type_mismatch(self, expected: Seq<char>, actual: Seq<char>) -> bool {
        self matches Error::TypeMismatch { expected: e, actual: a } && e@ == expected && a@
            == actual
    }

    /// The text a user is shown for this error.
    pub open spec fn text(self) -> Seq<char> {
        match self {
            Error::SharedMemory(m) => "shared memory error: "@ + m@,
            Error::BufferNotFound(i) => "buffer not found: index "@ + decimal(i as nat),
            Error::TypeMismatch { expected, actual } => "buffer type mismatch: expected "@
                + expected@ + ", got "@ + actual@,
            Error::ReadOnly => "access denied: buffer is read-only"@,
            Error::AlreadyForgotten => "buffer already forgotten"@,
            Error::InvalidShape(m) => "invalid shape: "@ + m@,
            Error::Cuda(m) => "CUDA error: "@ + m@,
            Error::Timeout => "timed out waiting for a free buffer"@,
        }
    }

    /// This error reports a full pool: it is `SharedMemory` and its detail
    /// mentions `full`.
    pub open spec fn full(self) -> bool {
        self matches Error::SharedMemory(m) && contains(m@, "full"@)
    }

    /// A `SharedMemory` error with the given detail.
    pub fn shared_memory(detail: &str) -> (e: Error)
        ensures
            e.is_shared_memory(detail@),
    {
        Error::SharedMemory(String::from_str(detail))
    }

    /// The error that reports a metadata region without a free slot.
    pub fn region_full() -> (e: Error)
        ensures
            e.is_shared_memory("metadata region full"@),
    {
        Error::SharedMemory(String::from_str("metadata region full"))
    }

    /// A `TypeMismatch` error between the two named storage kinds.
    pub fn type_mismatch(expected: &str, actual: &str) -> (e: Error)
        ensures
            e.is_type_mismatch(expected@, actual@),
    {
        Error::TypeMismatch {
            expected: String::from_str(expected),
            actual: String::from_str(actual),
        }
    }

    /// Renders the error for a user.
    pub fn message(&self) -> (s: String)
        ensures
            s@ == self.text(),
    {
        match self {
            Error::SharedMemory(m) => String::from_str("shared memory error: ").concat(
                m.as_str(),
            ),
            Error::BufferNotFound(i) => {
                let mut s = String::from_str("buffer not found: index ");
                append_decimal(&mut s, *i);
                s
            },
            Error::TypeMismatch { expected, actual } => String::from_str(
                "buffer type mismatch: expected ",
            ).concat(expected.as_str()).concat(", got ").concat(actual.as_str()),
            Error::ReadOnly => String::from_str("access denied: buffer is read-only"),
            Error::AlreadyForgotten => String::from_str("buffer already forgotten"),
            Error::InvalidShape(m) => String::from_str("invalid shape: ").concat(m.as_str()),
            Error::Cuda(m) => String::from_str("CUDA error: ").concat(m.as_str()),
            Error::Timeout => String::from_str("timed out waiting for a free buffer"),
        }
    }

    /// Whether this error reports a full pool, the one condition a blocking
    /// acquisition waits out.
    pub fn is_full(&self) -> (b: bool)
        ensures
            b == self.full(),
    {
        match self {
            Error::SharedMemory(m) => contains_str(m.as_str(), "full"),
            _ => false,
        }
    }
}

} // verus!
