//! Moves between the exit of one fragment and the entry of another.
//!
//! A bridge rotates three registers of a bank. Integer registers rotate through
//! the scratch register of the target, vector registers through a slot of the
//! transfer area: no register that the allocator hands out is borrowed.

use vstd::prelude::*;

use crate::bytes;
use crate::bytes::put_le32;

verus! {

/// Byte offset in the native frame of the slot that vector registers pass
/// through. It is inside the transfer area.
pub const VECTOR_SLOT: u32 = 1536;

/// One step of a bridge.
#[derive(Clone, Copy, Debug, PartialEq, Eq, Structural)]
pub enum Step {
    /// Copies one register of a bank to another.
    Move { vector: bool, dst: u8, src: u8 },
    /// Loads a vector register from the slot, or stores it there.
    Transfer { reg: u8, load: bool },
}

/// The code that copies a register.
pub open spec fn move_code(x64: bool, vector: bool, dst: u8, src: u8) -> Seq<u8> {
    if x64 && vector {
        seq![
            0xf3u8,
            0x40 | ((dst >> 3) << 2) | (src >> 3),
            0x0fu8,
            0x6fu8,
            0xc0 | ((dst & 7) << 3) | (src & 7),
        ]
    } else if x64 {
        seq![
            0x48 | ((src >> 3) << 2) | (dst >> 3),
            0x89u8,
            0xc0 | ((src & 7) << 3) | (dst & 7),
        ]
    } else if vector {
        bytes::le32(0x4ea0_1c00 | ((src as u32) << 16) | ((src as u32) << 5) | dst as u32)
    } else {
        bytes::le32(0xaa00_03e0 | ((src as u32) << 16) | dst as u32)
    }
}

/// The code that loads a vector register from the slot, or stores it there.
pub open spec fn transfer_code(x64: bool, reg: u8, load: bool) -> Seq<u8> {
    if x64 {
        seq![
            0xf3u8,
            0x41 | ((reg >> 3) << 2),
            0x0fu8,
            if load {
                0x6fu8
            } else {
                0x7fu8
            },
            0x87 | ((reg & 7) << 3),
        ] + bytes::le32(VECTOR_SLOT)
    } else {
        bytes::le32(
            (if load {
                0x3dc0_0000u32
            } else {
                0x3d80_0000
            }) | ((VECTOR_SLOT / 16) << 10) | (21u32 << 5) | reg as u32,
        )
    }
}

/// The code of a step.
pub open spec fn step_code(x64: bool, step: Step) -> Seq<u8> {
    match step {
        Step::Move { vector, dst, src } => move_code(x64, vector, dst, src),
        Step::Transfer { reg, load } => transfer_code(x64, reg, load),
    }
}

/// The integer register that a bridge may overwrite.
pub open spec fn scratch(x64: bool) -> u8 {
    if x64 {
        11
    } else {
        16
    }
}

/// The steps that rotate three registers: the first goes to the second, the
/// second to the third, and the third to the first.
pub open spec fn cycle_steps(x64: bool, a: u8, b: u8, c: u8, vector: bool) -> Seq<Step> {
    seq![
        if vector {
            Step::Transfer { reg: a, load: false }
        } else {
            Step::Move { vector, dst: scratch(x64), src: a }
        },
        Step::Move { vector, dst: a, src: c },
        Step::Move { vector, dst: c, src: b },
        if vector {
            Step::Transfer { reg: b, load: true }
        } else {
            Step::Move { vector, dst: b, src: scratch(x64) }
        },
    ]
}

/// The code of the first `count` steps.
pub open spec fn steps_code(x64: bool, steps: Seq<Step>, count: nat) -> Seq<u8>
    decreases count,
{
    if count == 0 {
        Seq::empty()
    } else {
        steps_code(x64, steps, (count - 1) as nat) + step_code(x64, steps[count - 1])
    }
}

/// Appends the code that copies register `src` of a bank to register `dst`.
pub fn move_register(bytes: &mut Vec<u8>, x64: bool, vector: bool, dst: u8, src: u8)
    ensures
        final(bytes)@ == old(bytes)@ + move_code(x64, vector, dst, src),
{
    if x64 {
        if vector {
            bytes.push(0xf3);
            bytes.push(0x40 | ((dst >> 3) << 2) | (src >> 3));
            bytes.push(0x0f);
            bytes.push(0x6f);
            bytes.push(0xc0 | ((dst & 7) << 3) | (src & 7));
        } else {
            bytes.push(0x48 | ((src >> 3) << 2) | (dst >> 3));
            bytes.push(0x89);
            bytes.push(0xc0 | ((src & 7) << 3) | (dst & 7));
        }
    } else {
        let word: u32 = if vector {
            0x4ea0_1c00 | ((src as u32) << 16) | ((src as u32) << 5) | dst as u32
        } else {
            0xaa00_03e0 | ((src as u32) << 16) | dst as u32
        };
        put_le32(bytes, word);
    }
    assert(bytes@ =~= old(bytes)@ + move_code(x64, vector, dst, src));
}

/// Appends the code that loads a vector register from the slot, or stores it
/// there.
pub fn vector_transfer(bytes: &mut Vec<u8>, x64: bool, reg: u8, load: bool)
    ensures
        final(bytes)@ == old(bytes)@ + transfer_code(x64, reg, load),
{
    if x64 {
        bytes.push(0xf3);
        bytes.push(0x41 | ((reg >> 3) << 2));
        bytes.push(0x0f);
        bytes.push(
            if load {
                0x6f
            } else {
                0x7f
            },
        );
        bytes.push(0x87 | ((reg & 7) << 3));
        put_le32(bytes, VECTOR_SLOT);
    } else {
        let opcode: u32 = if load {
            0x3dc0_0000
        } else {
            0x3d80_0000
        };
        put_le32(bytes, opcode | ((VECTOR_SLOT / 16) << 10) | (21u32 << 5) | reg as u32);
    }
    assert(bytes@ =~= old(bytes)@ + transfer_code(x64, reg, load));
}

/// Appends the code that rotates three registers of a bank.
pub fn cycle(bytes: &mut Vec<u8>, x64: bool, registers: &[u8], vector: bool)
    requires
        registers@.len() == 3,
    ensures
        final(bytes)@ == old(bytes)@ + steps_code(
            x64,
            cycle_steps(x64, registers@[0], registers@[1], registers@[2], vector),
            4,
        ),
{
    let (a, b, c) = (registers[0], registers[1], registers[2]);
    let through: u8 = if x64 {
        11
    } else {
        16
    };
    proof {
        reveal_with_fuel(steps_code, 5);
    }
    if vector {
        vector_transfer(bytes, x64, a, false);
    } else {
        move_register(bytes, x64, false, through, a);
    }
    move_register(bytes, x64, vector, a, c);
    move_register(bytes, x64, vector, c, b);
    if vector {
        vector_transfer(bytes, x64, b, true);
    } else {
        move_register(bytes, x64, false, b, through);
    }
    assert(bytes@ =~= old(bytes)@ + steps_code(x64, cycle_steps(x64, a, b, c, vector), 4));
}

/// What the steps of a bridge read and write.
pub struct Machine {
    /// The integer registers.
    pub integers: Map<u8, u64>,
    /// The vector registers.
    pub vectors: Map<u8, u128>,
    /// The slot.
    pub slot: u128,
}

/// The machine after one step.
pub open spec fn run_step(m: Machine, step: Step) -> Machine {
    match step {
        Step::Move { vector: false, dst, src } => Machine {
            integers: m.integers.insert(dst, m.integers[src]),
            ..m
        },
        Step::Move { vector: true, dst, src } => Machine {
            vectors: m.vectors.insert(dst, m.vectors[src]),
            ..m
        },
        Step::Transfer { reg, load: false } => Machine { slot: m.vectors[reg], ..m },
        Step::Transfer { reg, load: true } => Machine {
            vectors: m.vectors.insert(reg, m.slot),
            ..m
        },
    }
}

/// The machine after the first `count` steps.
pub open spec fn run(m: Machine, steps: Seq<Step>, count: nat) -> Machine
    decreases count,
{
    if count == 0 {
        m
    } else {
        run_step(run(m, steps, (count - 1) as nat), steps[count - 1])
    }
}

/// A cycle of three integer registers rotates them, and changes nothing else but
/// the scratch register.
pub proof fn lemma_integer_cycle_rotates(m: Machine, x64: bool, a: u8, b: u8, c: u8)
    requires
        a != b && b != c && a != c,
        a != scratch(x64) && b != scratch(x64) && c != scratch(x64),
    ensures
        ({
            let after = run(m, cycle_steps(x64, a, b, c, false), 4);
            &&& after.integers[b] == m.integers[a]
            &&& after.integers[c] == m.integers[b]
            &&& after.integers[a] == m.integers[c]
            &&& forall|r: u8|
                r != a && r != b && r != c && r != scratch(x64) ==> #[trigger] after.integers[r]
                    == m.integers[r]
            &&& after.vectors == m.vectors
            &&& after.slot == m.slot
        }),
{
    reveal_with_fuel(run, 5);
}

/// A cycle of three vector registers rotates them, and changes nothing else but
/// the slot.
pub proof fn lemma_vector_cycle_rotates(m: Machine, x64: bool, a: u8, b: u8, c: u8)
    requires
        a != b && b != c && a != c,
    ensures
        ({
            let after = run(m, cycle_steps(x64, a, b, c, true), 4);
            &&& after.vectors[b] == m.vectors[a]
            &&& after.vectors[c] == m.vectors[b]
            &&& after.vectors[a] == m.vectors[c]
            &&& forall|r: u8|
                r != a && r != b && r != c ==> #[trigger] after.vectors[r] == m.vectors[r]
            &&& after.integers == m.integers
        }),
{
    reveal_with_fuel(run, 5);
}

/// The destination and the source that the code of a move names.
pub open spec fn named_registers(x64: bool, vector: bool, code: Seq<u8>) -> (u8, u8) {
    if x64 {
        let (prefix, operands) = if vector {
            (code[1], code[4])
        } else {
            (code[0], code[2])
        };
        let reg = (((prefix >> 2) & 1) << 3) | ((operands >> 3) & 7);
        let rm = ((prefix & 1) << 3) | (operands & 7);
        if vector {
            (reg, rm)
        } else {
            (rm, reg)
        }
    } else {
        let word = bytes::from_le32(code);
        ((word & 31) as u8, ((word >> 16) & 31) as u8)
    }
}

/// The code of a move names the registers that are moved.
pub proof fn lemma_move_names_registers(x64: bool, vector: bool, dst: u8, src: u8)
    requires
        dst < (if x64 {
            16int
        } else {
            32
        }),
        src < (if x64 {
            16int
        } else {
            32
        }),
    ensures
        named_registers(x64, vector, move_code(x64, vector, dst, src)) == (dst, src),
{
    if x64 {
        if vector {
            let prefix: u8 = 0x40 | ((dst >> 3) << 2) | (src >> 3);
            let operands: u8 = 0xc0 | ((dst & 7) << 3) | (src & 7);
            assert((((prefix >> 2) & 1) << 3) | ((operands >> 3) & 7) == dst && ((prefix & 1) << 3)
                | (operands & 7) == src) by (bit_vector)
                requires
                    dst < 16,
                    src < 16,
                    prefix == 0x40u8 | ((dst >> 3) << 2) | (src >> 3),
                    operands == 0xc0u8 | ((dst & 7) << 3) | (src & 7),
            ;
        } else {
            let prefix: u8 = 0x48 | ((src >> 3) << 2) | (dst >> 3);
            let operands: u8 = 0xc0 | ((src & 7) << 3) | (dst & 7);
            assert((((prefix >> 2) & 1) << 3) | ((operands >> 3) & 7) == src && ((prefix & 1) << 3)
                | (operands & 7) == dst) by (bit_vector)
                requires
                    dst < 16,
                    src < 16,
                    prefix == 0x48u8 | ((src >> 3) << 2) | (dst >> 3),
                    operands == 0xc0u8 | ((src & 7) << 3) | (dst & 7),
            ;
        }
    } else {
        let word: u32 = if vector {
            0x4ea0_1c00 | ((src as u32) << 16) | ((src as u32) << 5) | dst as u32
        } else {
            0xaa00_03e0 | ((src as u32) << 16) | dst as u32
        };
        bytes::lemma_le32_roundtrip(word);
        if vector {
            assert((word & 31) as u8 == dst && ((word >> 16) & 31) as u8 == src) by (bit_vector)
                requires
                    dst < 32,
                    src < 32,
                    word == 0x4ea0_1c00u32 | ((src as u32) << 16) | ((src as u32) << 5)
                        | dst as u32,
            ;
        } else {
            assert((word & 31) as u8 == dst && ((word >> 16) & 31) as u8 == src) by (bit_vector)
                requires
                    dst < 32,
                    src < 32,
                    word == 0xaa00_03e0u32 | ((src as u32) << 16) | dst as u32,
            ;
        }
    }
}

/// The register that the code of a transfer names, and whether it is a load.
pub open spec fn named_transfer(x64: bool, code: Seq<u8>) -> (u8, bool) {
    if x64 {
        ((((code[1] >> 2) & 1) << 3) | ((code[4] >> 3) & 7), code[3] == 0x6f)
    } else {
        let word = bytes::from_le32(code);
        ((word & 31) as u8, (word >> 22) & 1 == 1)
    }
}

/// The code of a transfer names its register and its direction.
pub proof fn lemma_transfer_names_register(x64: bool, reg: u8, load: bool)
    requires
        reg < (if x64 {
            16int
        } else {
            32
        }),
    ensures
        named_transfer(x64, transfer_code(x64, reg, load)) == (reg, load),
{
    if x64 {
        let prefix: u8 = 0x41 | ((reg >> 3) << 2);
        let operands: u8 = 0x87 | ((reg & 7) << 3);
        assert((((prefix >> 2) & 1) << 3) | ((operands >> 3) & 7) == reg) by (bit_vector)
            requires
                reg < 16,
                prefix == 0x41u8 | ((reg >> 3) << 2),
                operands == 0x87u8 | ((reg & 7) << 3),
        ;
    } else {
        let opcode: u32 = if load {
            0x3dc0_0000
        } else {
            0x3d80_0000
        };
        let word: u32 = opcode | ((VECTOR_SLOT / 16) << 10) | (21u32 << 5) | reg as u32;
        bytes::lemma_le32_roundtrip(word);
        assert((word & 31) as u8 == reg && ((word >> 22) & 1 == 1) == load) by (bit_vector)
            requires
                reg < 32,
                opcode == (if load {
                    0x3dc0_0000u32
                } else {
                    0x3d80_0000u32
                }),
                word == opcode | ((1536u32 / 16) << 10) | (21u32 << 5) | reg as u32,
        ;
    }
}

} // verus!
