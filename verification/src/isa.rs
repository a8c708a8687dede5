//! The targets, and the registers that boundaries may use on them.

use vstd::prelude::*;

use crate::reg::RegClass;
use crate::types::Type;

verus! {

/// An instruction set.
#[derive(Clone, Copy, Debug, PartialEq, Eq, Structural)]
pub enum Arch {
    X64,
    AArch64,
}

/// A target.
#[derive(Clone, Copy, Debug, PartialEq, Eq, Structural)]
pub struct TargetIsa {
    /// The instruction set.
    pub arch: Arch,
    /// Boundaries are allowed.
    pub nixe_abi: bool,
    /// Entries begin with a landing instruction for indirect jumps.
    pub landings: bool,
}

/// The most work that one checkpoint or charge may stand for.
pub const MAX_COST: u16 = 2048;

/// The code of a fragment is placed at a multiple of this, so that aligned
/// offsets are aligned addresses on every target.
pub const CODE_ALIGNMENT: u32 = 8;

impl Arch {
    /// The size of a patch unit.
    pub open spec fn patch_width(self) -> u8 {
        match self {
            Arch::X64 => 8,
            Arch::AArch64 => 4,
        }
    }

    /// The size of a patch unit.
    #[verifier::when_used_as_spec(patch_width)]
    pub fn patch_bytes(self) -> (bytes: u8)
        ensures
            bytes == self.patch_width(),
    {
        match self {
            Arch::X64 => 8,
            Arch::AArch64 => 4,
        }
    }

    /// How many registers each bank has.
    pub open spec fn bank_size(self) -> u8 {
        match self {
            Arch::X64 => 16,
            Arch::AArch64 => 32,
        }
    }

    /// The integer register has a fixed role and never holds an operand.
    pub open spec fn reserves(self, index: u8) -> bool {
        match self {
            Arch::X64 => index == 4 || index == 5 || index == 11 || 13 <= index <= 15,
            Arch::AArch64 => 16 <= index <= 21 || 29 <= index <= 31,
        }
    }

    /// A value of type `ty` may be asked for in the register.
    pub open spec fn allows(self, ty: Type, index: u8, vector: bool) -> bool {
        &&& vector == (ty.class() == RegClass::Float)
        &&& index < self.bank_size()
        &&& !vector ==> !self.reserves(index)
    }

    /// A value of type `ty` may be asked for in the register.
    pub fn allows_register(self, ty: Type, index: u8, vector: bool) -> (allowed: bool)
        ensures
            allowed == self.allows(ty, index, vector),
    {
        let float = match ty.reg_class() {
            RegClass::Float => true,
            _ => false,
        };
        let (size, reserved) = match self {
            Arch::X64 => (
                16u8,
                index == 4 || index == 5 || index == 11 || (13 <= index && index <= 15),
            ),
            Arch::AArch64 => (
                32u8,
                (16 <= index && index <= 21) || (29 <= index && index <= 31),
            ),
        };
        vector == float && index < size && (vector || !reserved)
    }
}

} // verus!
