//! The native frame that spilled operands live in.

use vstd::prelude::*;

verus! {

/// The partition of a native frame: the transfer area, then the explicit stack
/// slots, then one 8-byte word per spill slot.
#[derive(Clone, Copy, Debug, PartialEq, Eq, Structural)]
pub struct FrameLayout {
    /// Size of the transfer area at the start of the frame.
    pub transfer_bytes: u32,
    /// Size of the explicit stack slots.
    pub stackslots_size: u32,
    /// Size of the whole frame.
    pub frame_bytes: u32,
}

impl FrameLayout {
    /// The offset of a spill slot from the end of the transfer area.
    pub open spec fn slot_offset(self, slot: u32) -> int {
        self.stackslots_size + 8 * slot
    }

    /// A value of `bytes` bytes in a spill slot lies inside the frame.
    pub open spec fn holds(self, slot: u32, bytes: int) -> bool {
        self.transfer_bytes + self.slot_offset(slot) + bytes <= self.frame_bytes
    }

    /// The offset of a spill slot from the end of the transfer area.
    pub fn spillslot_offset(&self, slot: u32) -> (offset: i64)
        ensures
            offset == self.slot_offset(slot),
    {
        self.stackslots_size as i64 + 8 * (slot as i64)
    }
}

} // verus!
