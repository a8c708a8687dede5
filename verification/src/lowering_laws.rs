//! What lowering carries over from instructions to boundaries.

use vstd::prelude::*;

use crate::boundary::{Boundary, BoundaryValue};
use crate::ir;
use crate::ir::{Function, Inst, InstructionData, Opcode, Value};
use crate::lower;
use crate::lower::Lower;
use crate::reg::{OperandPos, Reg};
use crate::types::Type;

verus! {

broadcast use vstd::std_specs::btree::group_btree_axioms;

/// Digit number `k` of a word to the base 256, from the low end.
pub open spec fn digit(word: int, k: nat) -> int
    decreases k,
{
    if k == 0 {
        word % 256
    } else {
        digit(word / 256, (k - 1) as nat)
    }
}

/// The number that two's complement bits of a width stand for differs from the
/// bits by a multiple of two to the width.
pub open spec fn agree_modulo(bits: int, number: int, modulus: int) -> bool {
    0 <= bits < modulus && (bits - number) % modulus == 0
}

/// The word of an immediate holds all of its bits.
pub proof fn lemma_words_hold_immediates(x: i64, y: i64)
    ensures
        agree_modulo(ir::word64(x) as int, x as int, 0x1_0000_0000_0000_0000),
        x >= 0 ==> ir::word64(x) == x,
        x < 0 ==> ir::word64(x) - 0x1_0000_0000_0000_0000 == x,
        ir::word64(x) == ir::word64(y) ==> x == y,
{
}

/// What defines a value.
pub open spec fn defined_by(f: Function, value: Value) -> Option<InstructionData> {
    match f.value_defs@[value.0 as int] {
        Some(definition) => Some(f.insts@[definition.0 as int].data),
        None => None,
    }
}

proof fn lemma_low_digit(low: int, high: int, word: int)
    requires
        0 <= low < 256,
        word == low + 256 * high,
    ensures
        word % 256 == low,
        word / 256 == high,
{
}

/// The eight bytes that a word is read from are its digits.
proof fn lemma_read_words_have_digits(bytes: Seq<u8>, start: int)
    ensures
        forall|k: nat|
            k < 8 ==> #[trigger] digit(lower::from_le64(bytes, start) as int, k) == bytes[start
                + k],
{
    let b = |k: int| bytes[start + k] as int;
    let w7 = b(7);
    let w6 = b(6) + 256 * w7;
    let w5 = b(5) + 256 * w6;
    let w4 = b(4) + 256 * w5;
    let w3 = b(3) + 256 * w4;
    let w2 = b(2) + 256 * w3;
    let w1 = b(1) + 256 * w2;
    let w0 = b(0) + 256 * w1;
    assert(lower::from_le64(bytes, start) == w0);
    lemma_low_digit(b(0), w1, w0);
    lemma_low_digit(b(1), w2, w1);
    lemma_low_digit(b(2), w3, w2);
    lemma_low_digit(b(3), w4, w3);
    lemma_low_digit(b(4), w5, w4);
    lemma_low_digit(b(5), w6, w5);
    lemma_low_digit(b(6), w7, w6);
    reveal_with_fuel(digit, 9);
    assert forall|k: nat| k < 8 implies #[trigger] digit(
        lower::from_le64(bytes, start) as int,
        k,
    ) == bytes[start + k] by {
        assert(k == 0 || k == 1 || k == 2 || k == 3 || k == 4 || k == 5 || k == 6 || k == 7);
    }
}

/// The words of a value that a literal defines are exactly its bits. A number of
/// 32 or 64 bits is in the low word and nothing is in the high one. The bytes of a
/// vector are the digits of the two words in turn. An integer fills the bits of its
/// type and no others. Nothing else has words.
pub proof fn lemma_literals_are_exact(f: Function, value: Value)
    ensures
        defined_by(f, value) matches Some(InstructionData::UnaryIeee32 { bits }) ==> (
        lower::literal(f, value) matches Some(words) && words@[0] == bits && words@[1] == 0),
        defined_by(f, value) matches Some(InstructionData::UnaryIeee64 { pattern }) ==> (
        lower::literal(f, value) matches Some(words) && words@[0] == pattern && words@[1] == 0),
        defined_by(f, value) matches Some(InstructionData::UnaryConst { constant }) ==> {
            let bytes = f.constants@[constant as int]@;
            &&& bytes.len() != 16 ==> lower::literal(f, value) is None
            &&& bytes.len() == 16 ==> (lower::literal(f, value) matches Some(words) && forall|
                k: nat,
            |
                k < 8 ==> (#[trigger] digit(words@[0] as int, k)) == bytes[k as int] && digit(
                    words@[1] as int,
                    k,
                ) == bytes[8 + k as int])
        },
        defined_by(f, value) matches Some(
            InstructionData::UnaryImm { opcode: Opcode::Iconst, imm },
        ) ==> {
            let width = f.value_types@[value.0 as int].width();
            &&& width > 64 ==> lower::literal(f, value) is None
            &&& width <= 64 ==> (lower::literal(f, value) matches Some(words) && words@[1] == 0
                && agree_modulo(
                words@[0] as int,
                imm as int,
                if width == 8 {
                    0x100
                } else if width == 16 {
                    0x1_0000
                } else if width == 32 {
                    0x1_0000_0000
                } else {
                    0x1_0000_0000_0000_0000
                },
            ))
        },
        defined_by(f, value) is None ==> lower::literal(f, value) is None,
        defined_by(f, value) matches Some(data) ==> (!(data is UnaryIeee32) && !(
        data is UnaryIeee64) && !(data is UnaryConst) && !(data is UnaryImm
            && data->UnaryImm_opcode == Opcode::Iconst) ==> lower::literal(f, value) is None),
{
    if let Some(InstructionData::UnaryConst { constant }) = defined_by(f, value) {
        let bytes = f.constants@[constant as int]@;
        lemma_read_words_have_digits(bytes, 0);
        lemma_read_words_have_digits(bytes, 8);
        let words = [lower::from_le64(bytes, 0), lower::from_le64(bytes, 8)];
        assert(words@[0] == lower::from_le64(bytes, 0) && words@[1] == lower::from_le64(bytes, 8));
    }
    if let Some(InstructionData::UnaryIeee64 { pattern }) = defined_by(f, value) {
        let words = [pattern, 0];
        assert(words@[0] == pattern && words@[1] == 0);
    }
    if let Some(InstructionData::UnaryIeee32 { bits }) = defined_by(f, value) {
        let words = [bits as u64, 0];
        assert(words@[0] == bits && words@[1] == 0);
    }
    if let Some(InstructionData::UnaryImm { opcode: Opcode::Iconst, imm }) = defined_by(f, value) {
        let low = lower::low_bits(imm, f.value_types@[value.0 as int].width());
        let words = [low, 0];
        assert(words@[0] == low && words@[1] == 0);
    }
}

/// Literals are carried alike only if they are alike: floating-point numbers of one
/// width have the same words only if all of their bits are the same, and vectors
/// only if all of their bytes are.
pub proof fn lemma_like_literals_are_equal(f: Function, a: Value, b: Value)
    requires
        lower::literal(f, a) is Some,
        lower::literal(f, a) == lower::literal(f, b),
    ensures
        defined_by(f, a) matches Some(InstructionData::UnaryIeee64 { pattern: x }) ==> (defined_by(
            f,
            b,
        ) matches Some(InstructionData::UnaryIeee64 { pattern: y }) ==> x == y),
        defined_by(f, a) matches Some(InstructionData::UnaryIeee32 { bits: x }) ==> (defined_by(
            f,
            b,
        ) matches Some(InstructionData::UnaryIeee32 { bits: y }) ==> x == y),
        defined_by(f, a) matches Some(InstructionData::UnaryConst { constant: x }) ==> (defined_by(
            f,
            b,
        ) matches Some(InstructionData::UnaryConst { constant: y }) ==> f.constants@[x as int]@
            == f.constants@[y as int]@),
{
    lemma_literals_are_exact(f, a);
    lemma_literals_are_exact(f, b);
    if let Some(InstructionData::UnaryConst { constant: x }) = defined_by(f, a) {
        if let Some(InstructionData::UnaryConst { constant: y }) = defined_by(f, b) {
            let (one, other) = (f.constants@[x as int]@, f.constants@[y as int]@);
            let words = lower::literal(f, a)->Some_0;
            assert forall|i: int| 0 <= i < 16 implies one[i] == other[i] by {
                let k = (if i < 8 {
                    i
                } else {
                    i - 8
                }) as nat;
                let _ = digit(words@[0] as int, k);
            }
            assert(one =~= other);
        }
    }
}

/// A charge subtracts the low 16 bits of what its instruction names, so exactly
/// that if it is in range, and is nothing else: it has no identity, no kind and no
/// operands.
pub proof fn lemma_charges_subtract(b: Boundary, imm: i64)
    requires
        lower::is_charge(b, imm),
    ensures
        b.charge is Some,
        agree_modulo(b.charge->Some_0 as int, imm as int, 0x1_0000),
        0 <= imm <= 2048 ==> b.charge == Some(imm as u16),
        b.id == 0 && b.values@.len() == 0 && b.entry_constraints@.len() == 0,
        !b.entry && !b.exit && !b.check,
        b.poll_cost is None && b.compare is None,
        b.fault_pos == OperandPos::Early,
{
    if 0 <= imm <= 2048 {
        assert(ir::word64(imm) == imm);
    }
}

/// The operand is compared at the exit that the boundary is.
pub open spec fn is_compared(f: Function, id: u64, i: int) -> bool {
    f.nixe_exit_compares@.contains_key(id) && (f.nixe_exit_compares@[id].lhs == i
        || f.nixe_exit_compares@[id].rhs == i)
}

/// A boundary that uses values has its own identity and kind, the comparison and
/// the cost that the fragment lists for that identity, and one operand per
/// argument. A literal that is not compared is carried as such, and any other
/// argument is in its own register.
pub proof fn lemma_uses_carry_over(
    b: Boundary,
    ctx: Lower,
    inst: Inst,
    opcode: Opcode,
    imm: i64,
)
    requires
        lower::is_use(b, ctx, inst, opcode, imm),
    ensures
        b.id == ir::word64(imm),
        !b.entry && b.charge is None && b.entry_constraints@.len() == 0,
        b.exit <==> opcode == Opcode::NixeExit,
        b.check <==> opcode == Opcode::NixeCheck,
        b.fault_pos == OperandPos::Early,
        b.poll_cost is Some <==> ctx.f.nixe_exit_costs@.contains_key(b.id),
        b.poll_cost matches Some(cost) ==> ctx.f.nixe_exit_costs@[b.id] == cost,
        b.compare is Some <==> ctx.f.nixe_exit_compares@.contains_key(b.id),
        b.compare matches Some(c) ==> ctx.f.nixe_exit_compares@[b.id] == c,
        b.values@.len() == ctx.f.insts@[inst.0 as int].args@.len(),
        forall|i: int|
            0 <= i < b.values@.len() ==> {
                let argument = ctx.f.insts@[inst.0 as int].args@[i];
                let (value, ty) = #[trigger] b.values@[i];
                &&& ty == ctx.f.value_types@[argument.0 as int]
                &&& match value {
                    BoundaryValue::Unused => false,
                    BoundaryValue::Constant(words) => !is_compared(*ctx.f, b.id, i)
                        && lower::literal(*ctx.f, argument) == Some(words),
                    BoundaryValue::Register(reg) => (is_compared(*ctx.f, b.id, i)
                        || lower::literal(*ctx.f, argument) is None) && reg
                        == ctx.value_regs@[argument.0 as int],
                }
            },
{
    assert(b.values@ == lower::use_values(ctx, inst, b.id));
}

/// After a boundary was lowered, exactly those values are used that were used
/// before or that it takes from registers.
pub proof fn lemma_register_operands_are_used(
    b: Boundary,
    ctx: Lower,
    inst: Inst,
    opcode: Opcode,
    imm: i64,
    v: int,
)
    requires
        lower::is_use(b, ctx, inst, opcode, imm),
    ensures
        lower::uses_after(ctx, inst, b.id, ctx.inputs(inst).len() as int, v) <==> (
        ctx.lowered_uses@[v] || exists|i: int|
            0 <= i < b.values@.len() && (#[trigger] b.values@[i]).0 is Register
                && ctx.f.insts@[inst.0 as int].args@[i].0 == v),
{
    let id = b.id;
    let args = ctx.f.insts@[inst.0 as int].args@;
    assert(b.values@.len() == args.len());
    assert forall|i: int| 0 <= i < args.len() implies ((#[trigger] b.values@[i]).0 is Register
        <==> !lower::carried_as_literal(ctx, inst, id, i)) by {
        assert(b.values@[i] == lower::use_values(ctx, inst, id)[i]);
    }
    if exists|i: int|
        0 <= i < b.values@.len() && (#[trigger] b.values@[i]).0 is Register && args[i].0 == v {
        let i = choose|i: int|
            0 <= i < b.values@.len() && (#[trigger] b.values@[i]).0 is Register && args[i].0 == v;
        assert(ctx.inputs(inst)[i].0 == v);
        assert(!lower::carried_as_literal(ctx, inst, id, i));
    }
    if exists|i: int|
        0 <= i < args.len() && (#[trigger] ctx.inputs(inst)[i]).0 == v && !lower::carried_as_literal(
            ctx,
            inst,
            id,
            i,
        ) {
        let i = choose|i: int|
            0 <= i < args.len() && (#[trigger] ctx.inputs(inst)[i]).0 == v
                && !lower::carried_as_literal(ctx, inst, id, i);
        assert(b.values@[i].0 is Register);
    }
}

/// An entry has its own identity, the constraints that the fragment lists for it,
/// and one operand per result: nothing for a result that is not used, and a new
/// register of the right class for each that is. New registers have numbers in the
/// order of the results.
pub proof fn lemma_entries_carry_over(b: Boundary, ctx: Lower, inst: Inst, imm: i64)
    requires
        lower::is_entry(b, ctx, inst, imm),
        ctx.next_vreg + ctx.f.insts@[inst.0 as int].results@.len() <= 0x4000_0000,
    ensures
        b.id == ir::word64(imm),
        b.entry && !b.exit && !b.check,
        b.poll_cost is None && b.charge is None && b.compare is None,
        b.fault_pos == OperandPos::Early,
        ctx.f.nixe_entry_constraints@.contains_key(b.id) ==> b.entry_constraints@
            == ctx.f.nixe_entry_constraints@[b.id]@,
        !ctx.f.nixe_entry_constraints@.contains_key(b.id) ==> b.entry_constraints@.len() == 0,
        b.values@.len() == ctx.f.insts@[inst.0 as int].results@.len(),
        forall|i: int|
            0 <= i < b.values@.len() ==> {
                let result = ctx.f.insts@[inst.0 as int].results@[i];
                let ty = ctx.f.value_types@[result.0 as int];
                &&& (#[trigger] b.values@[i]).1 == ty
                &&& !ctx.lowered_uses@[result.0 as int] ==> b.values@[i].0 is Unused
                &&& ctx.lowered_uses@[result.0 as int] ==> b.values@[i].0
                    == BoundaryValue::Register(lower::entry_reg(ctx, inst, i))
            },
        forall|i: int|
            0 <= i < b.values@.len() ==> (#[trigger] lower::entry_reg(
                ctx,
                inst,
                i,
            ) matches Reg::Virtual { index, class } && index == ctx.next_vreg + i && class
                == ctx.f.value_types@[ctx.f.insts@[inst.0 as int].results@[i].0 as int].class()),
{
    assert(b.values@ == lower::entry_values(ctx, inst));
}

/// Lowering knows a fragment exactly if the fragment is well-formed and each of its
/// values has a register and is known to be used or not.
pub proof fn lemma_ready_to_lower(ctx: Lower)
    ensures
        ctx.wf() <==> ctx.f.wf() && ctx.value_regs@.len() == ctx.f.value_types@.len()
            && ctx.lowered_uses@.len() == ctx.f.value_types@.len(),
{
}

/// What is asked of a fragment before an instruction is lowered: it is well-formed,
/// a register holds every value that the boundary has, and an entry has enough of
/// them.
pub proof fn lemma_lowering_conditions(ctx: Lower, inst: Inst)
    requires
        ctx.wf(),
        inst.0 < ctx.f.insts@.len(),
    ensures
        ({
            let node = ctx.f.insts@[inst.0 as int];
            let types = ctx.f.value_types@;
            &&& node.data is NixeEntry ==> (Boundary::lowerable(ctx, inst) <==> ctx.next_vreg
                + node.results@.len() <= 0x4000_0000 && forall|i: int|
                0 <= i < node.results@.len() ==> types[(#[trigger] node.results@[i]).0 as int]
                    != Type::I128)
            &&& node.data is NixeBoundary ==> (Boundary::lowerable(ctx, inst) <==> forall|i: int|
                0 <= i < node.args@.len() ==> types[(#[trigger] node.args@[i]).0 as int]
                    != Type::I128)
            &&& !(node.data is NixeEntry) && !(node.data is NixeBoundary) ==> Boundary::lowerable(
                ctx,
                inst,
            )
        }),
{
    let node = ctx.f.insts@[inst.0 as int];
    assert(node.results@ == ctx.outputs(inst) && node.args@ == ctx.inputs(inst));
}

} // verus!
