//! The machine code of a fragment as it is emitted, with its maps.

use vstd::prelude::*;

use crate::state_map::StateMap;

verus! {

/// Code bytes, and the maps recorded at offsets of them.
#[derive(Clone, Debug)]
pub struct MachBuffer {
    /// The bytes emitted so far.
    pub code: Vec<u8>,
    /// One map per boundary, in order of emission.
    pub nixe_states: Vec<StateMap>,
    /// One map per faulting memory instruction, in order of emission.
    pub nixe_faults: Vec<StateMap>,
}

impl MachBuffer {
    /// An empty buffer.
    pub fn new() -> (buffer: MachBuffer)
        ensures
            buffer.code@ == Seq::<u8>::empty(),
            buffer.nixe_states@ == Seq::<StateMap>::empty(),
            buffer.nixe_faults@ == Seq::<StateMap>::empty(),
    {
        MachBuffer { code: Vec::new(), nixe_states: Vec::new(), nixe_faults: Vec::new() }
    }

    /// The offset of the next byte.
    pub fn cur_offset(&self) -> (offset: u32)
        requires
            self.code@.len() <= u32::MAX,
        ensures
            offset == self.code@.len(),
    {
        self.code.len() as u32
    }

    /// Adds the map of a boundary.
    pub fn push_nixe_state(&mut self, map: StateMap)
        ensures
            final(self).code@ == old(self).code@,
            final(self).nixe_states@ == old(self).nixe_states@.push(map),
            final(self).nixe_faults@ == old(self).nixe_faults@,
    {
        self.nixe_states.push(map);
    }
}

} // verus!
