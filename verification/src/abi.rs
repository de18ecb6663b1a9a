//! Scalar layouts: the primitive kinds that a scalar in memory can have, their
//! sizes, and the range of valid bit patterns of a scalar.
use vstd::prelude::*;

verus! {

/// The integer sizes of the target.
#[derive(Clone, Copy, Debug, PartialEq, Eq, Structural)]
pub enum Integer {
    I8,
    I16,
    I32,
    I64,
    I128,
}

/// The kind of a scalar: an integer with its signedness, a float, or a
/// pointer.
#[derive(Clone, Copy, Debug, PartialEq, Eq, Structural)]
pub enum Primitive {
    Int(Integer, bool),
    F32,
    F64,
    Pointer,
}

/// A scalar layout: its kind and the inclusive range of valid values.
#[derive(Clone, Copy, Debug, PartialEq, Eq, Structural)]
pub struct AbiScalar {
    pub value: Primitive,
    pub valid_range_start: u128,
    pub valid_range_end: u128,
}

impl Integer {
    /// Size in bytes.
    pub open spec fn spec_size(self) -> u64 {
        match self {
            Integer::I8 => 1,
            Integer::I16 => 2,
            Integer::I32 => 4,
            Integer::I64 => 8,
            Integer::I128 => 16,
        }
    }

    /// Size in bytes.
    #[verifier::when_used_as_spec(spec_size)]
    pub fn size(self) -> (r: u64)
        ensures
            r == self.spec_size(),
    {
        match self {
            Integer::I8 => 1,
            Integer::I16 => 2,
            Integer::I32 => 4,
            Integer::I64 => 8,
            Integer::I128 => 16,
        }
    }

    /// The integer size of `bits` bits, where there is one.
    pub open spec fn spec_from_bits(bits: u32) -> Option<Integer> {
        if bits == 8 {
            Some(Integer::I8)
        } else if bits == 16 {
            Some(Integer::I16)
        } else if bits == 32 {
            Some(Integer::I32)
        } else if bits == 64 {
            Some(Integer::I64)
        } else if bits == 128 {
            Some(Integer::I128)
        } else {
            None
        }
    }

    /// The integer size of `bits` bits, where there is one.
    #[verifier::when_used_as_spec(spec_from_bits)]
    pub fn from_bits(bits: u32) -> (r: Option<Integer>)
        ensures
            r == Integer::spec_from_bits(bits),
    {
        match bits {
            8 => Some(Integer::I8),
            16 => Some(Integer::I16),
            32 => Some(Integer::I32),
            64 => Some(Integer::I64),
            128 => Some(Integer::I128),
            _ => None,
        }
    }
}

impl Primitive {
    /// Size in bytes, with pointers of `pointer_size` bytes.
    pub open spec fn spec_size(self, pointer_size: u64) -> u64 {
        match self {
            Primitive::Int(i, _) => i.spec_size(),
            Primitive::F32 => 4,
            Primitive::F64 => 8,
            Primitive::Pointer => pointer_size,
        }
    }

    /// Size in bytes, with pointers of `pointer_size` bytes.
    #[verifier::when_used_as_spec(spec_size)]
    pub fn size(self, pointer_size: u64) -> (r: u64)
        ensures
            r == self.spec_size(pointer_size),
    {
        match self {
            Primitive::Int(i, _) => i.size(),
            Primitive::F32 => 4,
            Primitive::F64 => 8,
            Primitive::Pointer => pointer_size,
        }
    }
}

} // verus!
