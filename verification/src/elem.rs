//! Scalar element types of the store.
//!
//! The store is generic over a small closed set of numeric element types.
//! Verus does not reason about floating-point values, so a 32-bit float is
//! carried as its IEEE-754 bit pattern; zero-filling and row copying treat
//! every element as an opaque scalar, which is all the store ever does with
//! one.

use vstd::prelude::*;

verus! {

/// Tag for the element type of one field's dense array.
#[derive(Clone, Copy, Debug, PartialEq, Eq, Structural)]
pub enum Dtype {
    /// 8-bit unsigned integer.
    Uint8,
    /// 32-bit signed integer.
    Int32,
    /// 64-bit signed integer.
    Int64,
    /// 32-bit float, carried as its bit pattern.
    Float32,
}

/// One scalar element of a dense array.
#[derive(Clone, Copy, Debug, PartialEq, Eq, Structural)]
pub enum Elem {
    /// An 8-bit unsigned integer value.
    Uint8(u8),
    /// A 32-bit signed integer value.
    Int32(i32),
    /// A 64-bit signed integer value.
    Int64(i64),
    /// The IEEE-754 bit pattern of a 32-bit float value.
    Float32Bits(u32),
}

impl Elem {
    /// The element type that a scalar value belongs to.
    pub open spec fn dtype(self) -> Dtype {
        match self {
            Elem::Uint8(_) => Dtype::Uint8,
            Elem::Int32(_) => Dtype::Int32,
            Elem::Int64(_) => Dtype::Int64,
            Elem::Float32Bits(_) => Dtype::Float32,
        }
    }

    /// The element type of a scalar value, as a value.
    pub fn dtype_val(&self) -> (d: Dtype)
        ensures
            d == self.dtype(),
    {
        match self {
            Elem::Uint8(_) => Dtype::Uint8,
            Elem::Int32(_) => Dtype::Int32,
            Elem::Int64(_) => Dtype::Int64,
            Elem::Float32Bits(_) => Dtype::Float32,
        }
    }
}

impl Dtype {
    /// The zero value of an element type.  The bit pattern of `0.0f32` is
    /// all-zero, so zero is the all-zero scalar for every supported type.
    pub open spec fn spec_zero(self) -> Elem {
        match self {
            Dtype::Uint8 => Elem::Uint8(0),
            Dtype::Int32 => Elem::Int32(0),
            Dtype::Int64 => Elem::Int64(0),
            Dtype::Float32 => Elem::Float32Bits(0),
        }
    }

    /// Produces the zero value of this element type.
    pub fn zero(self) -> (e: Elem)
        ensures
            e == self.spec_zero(),
            e.dtype() == self,
    {
        match self {
            Dtype::Uint8 => Elem::Uint8(0),
            Dtype::Int32 => Elem::Int32(0),
            Dtype::Int64 => Elem::Int64(0),
            Dtype::Float32 => Elem::Float32Bits(0),
        }
    }
}

} // verus!
