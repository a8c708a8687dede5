//! Types of boundary operands.

use vstd::prelude::*;

use crate::reg::RegClass;

verus! {

/// The type of a value: integers and floating-point numbers of up to 128 bits, and
/// vectors of two or more of them of up to 128 bits in all. No register of a target
/// holds a wider vector, and boundary operands have no such type.
#[derive(Clone, Copy, Debug, PartialEq, Eq, Hash, Structural)]
pub enum Type {
    I8,
    I16,
    I32,
    I64,
    I128,
    F16,
    F32,
    F64,
    F128,
    I8X2,
    I8X4,
    I8X8,
    I8X16,
    I16X2,
    I16X4,
    I16X8,
    I32X2,
    I32X4,
    I64X2,
    F16X2,
    F16X4,
    F16X8,
    F32X2,
    F32X4,
    F64X2,
}

impl Type {
    /// The width in bits.
    pub open spec fn width(self) -> u32 {
        match self {
            Type::I8 => 8,
            Type::I16 | Type::F16 | Type::I8X2 => 16,
            Type::I32 | Type::F32 | Type::I8X4 | Type::I16X2 | Type::F16X2 => 32,
            Type::I64 | Type::F64 => 64,
            Type::I8X8 | Type::I16X4 | Type::I32X2 | Type::F16X4 | Type::F32X2 => 64,
            _ => 128,
        }
    }

    /// The width in bits.
    #[verifier::when_used_as_spec(width)]
    pub fn bits(self) -> (bits: u32)
        ensures
            bits == self.width(),
    {
        match self {
            Type::I8 => 8,
            Type::I16 | Type::F16 | Type::I8X2 => 16,
            Type::I32 | Type::F32 | Type::I8X4 | Type::I16X2 | Type::F16X2 => 32,
            Type::I64 | Type::F64 => 64,
            Type::I8X8 | Type::I16X4 | Type::I32X2 | Type::F16X4 | Type::F32X2 => 64,
            _ => 128,
        }
    }

    /// The size in bytes.
    pub fn bytes(self) -> (bytes: u32)
        ensures
            bytes * 8 == self.width(),
            1 <= bytes <= 16,
    {
        self.bits() / 8
    }

    /// The class of the registers that hold values of the type.
    pub open spec fn class(self) -> RegClass {
        match self {
            Type::I8 | Type::I16 | Type::I32 | Type::I64 | Type::I128 => RegClass::Int,
            _ => RegClass::Float,
        }
    }

    /// One register holds a value of the type.
    pub open spec fn in_one_reg(self) -> bool {
        self != Type::I128
    }

    /// The class of the registers that hold values of the type.
    #[verifier::when_used_as_spec(class)]
    pub fn reg_class(self) -> (class: RegClass)
        ensures
            class == self.class(),
    {
        match self {
            Type::I8 | Type::I16 | Type::I32 | Type::I64 | Type::I128 => RegClass::Int,
            _ => RegClass::Float,
        }
    }
}

} // verus!
