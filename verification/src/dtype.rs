//! Element types of the payload-shape hints.

use vstd::prelude::*;

verus! {

/// Element type recorded in a metadata record's `dtype` byte.
#[derive(Debug, Clone, Copy, PartialEq, Eq, Structural)]
pub enum DType {
    UInt8,
    Int8,
    UInt16,
    Int16,
    UInt32,
    Int32,
    UInt64,
    Int64,
    Float16,
    Float32,
    Float64,
}

impl DType {
    /// The byte that stands for this element type in a metadata record.
    pub open spec fn code(self) -> u8 {
        match self {
            DType::UInt8 => 0,
            DType::Int8 => 1,
            DType::UInt16 => 2,
            DType::Int16 => 3,
            DType::UInt32 => 4,
            DType::Int32 => 5,
            DType::UInt64 => 6,
            DType::Int64 => 7,
            DType::Float16 => 8,
            DType::Float32 => 9,
            DType::Float64 => 10,
        }
    }

    /// Width of one element in bytes.
    pub open spec fn width(self) -> nat {
        match self {
            DType::UInt8 | DType::Int8 => 1,
            DType::UInt16 | DType::Int16 | DType::Float16 => 2,
            DType::UInt32 | DType::Int32 | DType::Float32 => 4,
            DType::UInt64 | DType::Int64 | DType::Float64 => 8,
        }
    }

    /// Size in bytes of one element.
    pub fn size(&self) -> (n: usize)
        ensures
            n == self.width(),
    {
        match self {
            DType::UInt8 | DType::Int8 => 1,
            DType::UInt16 | DType::Int16 | DType::Float16 => 2,
            DType::UInt32 | DType::Int32 | DType::Float32 => 4,
            DType::UInt64 | DType::Int64 | DType::Float64 => 8,
        }
    }

    /// Decodes a `dtype` byte; bytes above 10 stand for no element type.
    pub fn from_u8(v: u8) -> (r: Option<DType>)
        ensures
            r is Some <==> v <= 10,
            r matches Some(d) ==> d.code() == v,
    {
        match v {
            0 => Some(DType::UInt8),
            1 => Some(DType::Int8),
            2 => Some(DType::UInt16),
            3 => Some(DType::Int16),
            4 => Some(DType::UInt32),
            5 => Some(DType::Int32),
            6 => Some(DType::UInt64),
            7 => Some(DType::Int64),
            8 => Some(DType::Float16),
            9 => Some(DType::Float32),
            10 => Some(DType::Float64),
            _ => None,
        }
    }

    /// Encodes this element type as its `dtype` byte.
    pub fn to_u8(&self) -> (v: u8)
        ensures
            v == self.code(),
    {
        match self {
            DType::UInt8 => 0,
            DType::Int8 => 1,
            DType::UInt16 => 2,
            DType::Int16 => 3,
            DType::UInt32 => 4,
            DType::Int32 => 5,
            DType::UInt64 => 6,
            DType::Int64 => 7,
            DType::Float16 => 8,
            DType::Float32 => 9,
            DType::Float64 => 10,
        }
    }
}

/// Decoding inverts encoding: every element type is recovered from its byte,
/// and two element types with the same byte are the same.
pub proof fn lemma_dtype_code_injective(a: DType, b: DType)
    ensures
        a.code() <= 10,
        a.code() == b.code() ==> a == b,
{
}

} // verus!
