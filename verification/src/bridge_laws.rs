//! The code of a bridge, read as instructions.

use vstd::prelude::*;

use crate::bridge;
use crate::bridge::Step;
use crate::bytes;
use crate::isa::Arch;
use crate::machine_code;
use crate::types::Type;

verus! {

/// How many registers a bank has.
pub open spec fn bank(x64: bool) -> int {
    if x64 {
        16
    } else {
        32
    }
}

/// The registers that a step names exist.
pub open spec fn nameable(x64: bool, step: Step) -> bool {
    match step {
        Step::Move { dst, src, .. } => dst < bank(x64) && src < bank(x64),
        Step::Transfer { reg, .. } => reg < bank(x64),
    }
}

/// How long the instruction of a step is.
pub open spec fn step_size(x64: bool, step: Step) -> int {
    if !x64 {
        4
    } else {
        match step {
            Step::Move { vector: false, .. } => 3,
            Step::Move { vector: true, .. } => 5,
            Step::Transfer { .. } => 9,
        }
    }
}

/// The instruction, read by its fields, does what the step says. On x86-64 it is
/// `mov`, or `movdqu` between registers or at 1536 bytes from `r15`. On AArch64 it
/// is `orr` of one register, or `ldr` or `str` of a whole vector at 1536 bytes from
/// `x21`.
#[verifier::opaque]
pub open spec fn performs(x64: bool, code: Seq<u8>, step: Step) -> bool {
    let word = machine_code::word_at(code, 0);
    match step {
        Step::Move { vector: false, dst, src } => if x64 {
            let (prefix, operands) = (code[0] as int, code[2] as int);
            &&& prefix / 16 == 4 && prefix / 8 % 2 == 1 && prefix / 2 % 2 == 0
            &&& code[1] == 0x89
            &&& operands / 64 == 3
            &&& prefix / 4 % 2 * 8 + operands / 8 % 8 == src
            &&& prefix % 2 * 8 + operands % 8 == dst
        } else {
            &&& word / 0x20_0000 == 0x550
            &&& word / 0x1_0000 % 0x20 == src
            &&& word / 0x400 % 0x40 == 0
            &&& word / 0x20 % 0x20 == 31
            &&& word % 0x20 == dst
        },
        Step::Move { vector: true, dst, src } => if x64 {
            let (prefix, operands) = (code[1] as int, code[4] as int);
            &&& code[0] == 0xf3
            &&& prefix / 8 == 8 && prefix / 2 % 2 == 0
            &&& code[2] == 0x0f && code[3] == 0x6f
            &&& operands / 64 == 3
            &&& prefix / 4 % 2 * 8 + operands / 8 % 8 == dst
            &&& prefix % 2 * 8 + operands % 8 == src
        } else {
            &&& word / 0x20_0000 == 0x275
            &&& word / 0x1_0000 % 0x20 == src
            &&& word / 0x400 % 0x40 == 7
            &&& word / 0x20 % 0x20 == src
            &&& word % 0x20 == dst
        },
        Step::Transfer { reg, load } => if x64 {
            let (prefix, operands) = (code[1] as int, code[4] as int);
            &&& code[0] == 0xf3
            &&& prefix / 8 == 8 && prefix / 2 % 2 == 0
            &&& code[2] == 0x0f
            &&& code[3] == (if load {
                0x6f
            } else {
                0x7fint
            })
            &&& operands / 64 == 2
            &&& prefix / 4 % 2 * 8 + operands / 8 % 8 == reg
            &&& prefix % 2 * 8 + operands % 8 == 15
            &&& machine_code::word_at(code, 5) == 1536
        } else {
            &&& word / 0x40_0000 == (if load {
                0xf7
            } else {
                0xf6int
            })
            &&& word / 0x400 % 0x1000 * 16 == 1536
            &&& word / 0x20 % 0x20 == 21
            &&& word % 0x20 == reg
        },
    }
}

proof fn lemma_x64_fields(base: int, high: int, low: int, mode: int, prefix: int, operands: int)
    requires
        0 <= high < 16,
        0 <= low < 16,
        base == 0x40 || base == 0x48,
        mode == 3 || mode == 2,
        prefix == base + high / 8 * 4 + low / 8,
        operands == mode * 64 + high % 8 * 8 + low % 8,
    ensures
        prefix / 16 == 4,
        prefix / 8 == base / 8,
        prefix / 8 % 2 == base / 8 % 2,
        prefix / 2 % 2 == 0,
        operands / 64 == mode,
        prefix / 4 % 2 * 8 + operands / 8 % 8 == high,
        prefix % 2 * 8 + operands % 8 == low,
{
    assert(0 <= high / 8 <= 1 && 0 <= low / 8 <= 1);
}

proof fn lemma_word_fields(opcode: int, rm: int, middle: int, rn: int, rd: int, word: int)
    requires
        0 <= rm < 32,
        0 <= middle < 64,
        0 <= rn < 32,
        0 <= rd < 32,
        word == opcode * 0x20_0000 + rm * 0x1_0000 + middle * 0x400 + rn * 0x20 + rd,
    ensures
        word / 0x20_0000 == opcode,
        word / 0x1_0000 % 0x20 == rm,
        word / 0x400 % 0x40 == middle,
        word / 0x20 % 0x20 == rn,
        word % 0x20 == rd,
{
    assert(word / 0x1_0000 == opcode * 0x20 + rm);
    assert(word / 0x400 == opcode * 0x800 + rm * 0x40 + middle);
    assert(word / 0x20 == opcode * 0x1_0000 + rm * 0x800 + middle * 0x20 + rn);
}

proof fn lemma_move_performs(x64: bool, vector: bool, dst: u8, src: u8)
    requires
        dst < bank(x64),
        src < bank(x64),
    ensures
        performs(
            x64,
            bridge::move_code(x64, vector, dst, src),
            Step::Move { vector, dst, src },
        ),
        bridge::move_code(x64, vector, dst, src).len() == step_size(
            x64,
            Step::Move { vector, dst, src },
        ),
{
    reveal(performs);
    let code = bridge::move_code(x64, vector, dst, src);
    let (d, s) = (dst as int, src as int);
    if x64 && vector {
        assert(0x40 | ((dst >> 3) << 2) | (src >> 3) == 0x40 + dst / 8 * 4 + src / 8 && 0xc0 | ((dst
            & 7) << 3) | (src & 7) == 0xc0 + dst % 8 * 8 + src % 8) by (bit_vector)
            requires
                dst < 16,
                src < 16,
        ;
        lemma_x64_fields(0x40, d, s, 3, code[1] as int, code[4] as int);
    } else if x64 {
        assert(0x48 | ((src >> 3) << 2) | (dst >> 3) == 0x48 + src / 8 * 4 + dst / 8 && 0xc0 | ((src
            & 7) << 3) | (dst & 7) == 0xc0 + src % 8 * 8 + dst % 8) by (bit_vector)
            requires
                dst < 16,
                src < 16,
        ;
        lemma_x64_fields(0x48, s, d, 3, code[0] as int, code[2] as int);
    } else if vector {
        let word: u32 = 0x4ea0_1c00 | ((src as u32) << 16) | ((src as u32) << 5) | dst as u32;
        assert(word == 0x4ea0_1c00 + src * 0x1_0000 + src * 0x20 + dst) by (bit_vector)
            requires
                dst < 32,
                src < 32,
                word == 0x4ea0_1c00u32 | ((src as u32) << 16) | ((src as u32) << 5) | dst as u32,
        ;
        machine_code::lemma_words_have_digits(word, code);
        lemma_word_fields(0x275, s, 7, s, d, word as int);
    } else {
        let word: u32 = 0xaa00_03e0 | ((src as u32) << 16) | dst as u32;
        assert(word == 0xaa00_03e0 + src * 0x1_0000 + dst) by (bit_vector)
            requires
                dst < 32,
                src < 32,
                word == 0xaa00_03e0u32 | ((src as u32) << 16) | dst as u32,
        ;
        machine_code::lemma_words_have_digits(word, code);
        lemma_word_fields(0x550, s, 0, 31, d, word as int);
    }
}

proof fn lemma_slot_fields(opcode: int, slot: int, rn: int, rt: int, word: int)
    requires
        0 <= slot < 0x1000,
        0 <= rn < 32,
        0 <= rt < 32,
        word == opcode * 0x40_0000 + slot * 0x400 + rn * 0x20 + rt,
    ensures
        word / 0x40_0000 == opcode,
        word / 0x400 % 0x1000 == slot,
        word / 0x20 % 0x20 == rn,
        word % 0x20 == rt,
{
    assert(word / 0x400 == opcode * 0x1000 + slot);
    assert(word / 0x20 == opcode * 0x2_0000 + slot * 0x20 + rn);
}

proof fn lemma_transfer_performs(x64: bool, reg: u8, load: bool)
    requires
        reg < bank(x64),
    ensures
        performs(x64, bridge::transfer_code(x64, reg, load), Step::Transfer { reg, load }),
        bridge::transfer_code(x64, reg, load).len() == step_size(
            x64,
            Step::Transfer { reg, load },
        ),
{
    reveal(performs);
    let code = bridge::transfer_code(x64, reg, load);
    if x64 {
        assert(0x41 | ((reg >> 3) << 2) == 0x41 + reg / 8 * 4 && 0x87 | ((reg & 7) << 3) == 0x87
            + reg % 8 * 8) by (bit_vector)
            requires
                reg < 16,
        ;
        lemma_x64_fields(0x40, reg as int, 15, 2, code[1] as int, code[4] as int);
        let slot = bytes::le32(1536);
        machine_code::lemma_words_have_digits(1536, slot);
        assert(code[5] == slot[0] && code[6] == slot[1] && code[7] == slot[2] && code[8]
            == slot[3]);
    } else {
        let opcode: u32 = if load {
            0x3dc0_0000
        } else {
            0x3d80_0000
        };
        let word: u32 = opcode | ((1536u32 / 16) << 10) | (21u32 << 5) | reg as u32;
        assert(word == opcode + 96 * 0x400 + 21 * 0x20 + reg) by (bit_vector)
            requires
                reg < 32,
                opcode == 0x3dc0_0000u32 || opcode == 0x3d80_0000u32,
                word == opcode | ((1536u32 / 16) << 10) | (21u32 << 5) | reg as u32,
        ;
        machine_code::lemma_words_have_digits(word, code);
        lemma_slot_fields(
            if load {
                0xf7
            } else {
                0xf6
            },
            96,
            21,
            reg as int,
            word as int,
        );
    }
}

/// The code of a step is one instruction, which does what the step says.
pub proof fn lemma_steps_are_performed(x64: bool, step: Step)
    requires
        nameable(x64, step),
    ensures
        performs(x64, bridge::step_code(x64, step), step),
        bridge::step_code(x64, step).len() == step_size(x64, step),
{
    match step {
        Step::Move { vector, dst, src } => lemma_move_performs(x64, vector, dst, src),
        Step::Transfer { reg, load } => lemma_transfer_performs(x64, reg, load),
    }
}

/// How long the instructions of the first `count` steps are.
pub open spec fn steps_size(x64: bool, steps: Seq<Step>, count: nat) -> int
    decreases count,
{
    if count == 0 {
        0
    } else {
        steps_size(x64, steps, (count - 1) as nat) + step_size(x64, steps[count - 1])
    }
}

/// The code of steps is their instructions, one right behind the other and nothing
/// else.
pub proof fn lemma_steps_follow_each_other(x64: bool, steps: Seq<Step>, count: nat)
    requires
        count <= steps.len(),
        forall|i: int| 0 <= i < steps.len() ==> nameable(x64, #[trigger] steps[i]),
    ensures
        bridge::steps_code(x64, steps, count).len() == steps_size(x64, steps, count),
        forall|i: int|
            0 <= i < count ==> {
                let from = steps_size(x64, steps, i as nat);
                let to = from + step_size(x64, #[trigger] steps[i]);
                &&& 0 <= from < to <= steps_size(x64, steps, count)
                &&& performs(
                    x64,
                    bridge::steps_code(x64, steps, count).subrange(from, to),
                    steps[i],
                )
            },
    decreases count,
{
    if count > 0 {
        let fewer = (count - 1) as nat;
        lemma_steps_follow_each_other(x64, steps, fewer);
        lemma_steps_are_performed(x64, steps[fewer as int]);
        let before = bridge::steps_code(x64, steps, fewer);
        let own = bridge::step_code(x64, steps[fewer as int]);
        let code = bridge::steps_code(x64, steps, count);
        assert(code == before + own);
        assert forall|i: int| 0 <= i < count implies {
            let from = steps_size(x64, steps, i as nat);
            let to = from + step_size(x64, #[trigger] steps[i]);
            &&& 0 <= from < to <= steps_size(x64, steps, count)
            &&& performs(x64, code.subrange(from, to), steps[i])
        } by {
            let from = steps_size(x64, steps, i as nat);
            let to = from + step_size(x64, steps[i]);
            if i < fewer {
                assert(code.subrange(from, to) =~= before.subrange(from, to));
            } else {
                assert(i == fewer);
                assert(code.subrange(from, to) =~= own);
            }
        }
    }
}

/// The code of a cycle is four instructions. The first one saves the first register,
/// the second and third move the third to the first and the second to the third, and
/// the last one gives the second what was saved. Integers are saved in the scratch
/// register, `r11` or `x16`, which no value is asked for in, and vectors in the slot.
pub proof fn lemma_cycles_save_and_move(x64: bool, a: u8, b: u8, c: u8, vector: bool)
    ensures
        ({
            let steps = bridge::cycle_steps(x64, a, b, c, vector);
            let scratch = bridge::scratch(x64);
            &&& scratch == (if x64 {
                11
            } else {
                16int
            })
            &&& forall|ty: Type|
                !(if x64 {
                    #[trigger] Arch::X64.allows(ty, scratch, false)
                } else {
                    Arch::AArch64.allows(ty, scratch, false)
                })
            &&& steps.len() == 4
            &&& steps[1] == (Step::Move { vector, dst: a, src: c })
            &&& steps[2] == (Step::Move { vector, dst: c, src: b })
            &&& vector ==> steps[0] == (Step::Transfer { reg: a, load: false }) && steps[3] == (
            Step::Transfer { reg: b, load: true })
            &&& !vector ==> steps[0] == (Step::Move { vector: false, dst: scratch, src: a })
                && steps[3] == (Step::Move { vector: false, dst: b, src: scratch })
        }),
        bridge::VECTOR_SLOT == 1536,
{
}

} // verus!
