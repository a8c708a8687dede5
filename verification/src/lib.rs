//! Allocation-visible boundaries of compiled code fragments.
//!
//! A fragment is entered and left through boundaries: instructions whose
//! operands keep a caller-supplied order while the register allocator is free to
//! place them. The library lowers boundary instructions, constrains and reads
//! back their allocation, emits their machine code, and describes every
//! boundary by a `StateMap` that an owner of the code patches and reads.

pub mod boundary;
pub mod bridge;
pub mod bridge_laws;
pub mod buffer;
pub mod bytes;
pub mod dead_code;
pub mod emit;
pub mod error;
pub mod fragment_laws;
pub mod fragments;
pub mod frame;
pub mod ir;
pub mod isa;
pub mod laws;
pub mod liveness_laws;
pub mod lower;
pub mod lowering_laws;
pub mod machine_code;
pub mod operand_laws;
pub mod patch;
pub mod reg;
pub mod rule_laws;
pub mod state_map;
pub mod types;
pub mod validate;

pub use crate::boundary::Boundary;
pub use crate::error::{CodegenError, CodegenResult};
pub use crate::state_map::{
    EntryConstraint, ExitCompare, LocatedValue, Location, PollCheckpoint, StateMap,
};
