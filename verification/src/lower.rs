//! Lowering of boundary instructions.

use vstd::arithmetic::div_mod;
use vstd::arithmetic::power2;
use vstd::prelude::*;

use crate::boundary::{Boundary, BoundaryValue};
use crate::ir;
use crate::ir::{imm_bits, Function, Inst, InstructionData, Opcode, Value};
use crate::reg::{OperandPos, Reg, MAX_VREGS};
use crate::state_map::{EntryConstraint, ExitCompare};
use crate::types::Type;

verus! {

broadcast use vstd::std_specs::btree::group_btree_axioms;

/// What lowering knows of a fragment. Instructions are lowered from the last to
/// the first, so that the uses of a value are known when its definition comes.
#[derive(Debug)]
pub struct Lower<'a> {
    /// The fragment.
    pub f: &'a Function,
    /// The registers of the values.
    pub value_regs: Vec<Reg>,
    /// The values that an instruction lowered so far takes from a register.
    pub lowered_uses: Vec<bool>,
    /// The number of the next new register.
    pub next_vreg: usize,
}

impl<'a> Lower<'a> {
    /// The fragment is well-formed and all of its values have registers.
    pub open spec fn wf(self) -> bool {
        &&& self.f.wf()
        &&& self.value_regs@.len() == self.f.value_types@.len()
        &&& self.lowered_uses@.len() == self.f.value_types@.len()
    }

    /// The operands of an instruction.
    pub open spec fn inputs(self, inst: Inst) -> Seq<Value> {
        self.f.insts@[inst.0 as int].args@
    }

    /// The results of an instruction.
    pub open spec fn outputs(self, inst: Inst) -> Seq<Value> {
        self.f.insts@[inst.0 as int].results@
    }

    /// The type of a value.
    pub open spec fn ty(self, value: Value) -> Type {
        self.f.value_types@[value.0 as int]
    }

    /// Prepares a fragment for lowering: value number `n` gets virtual register
    /// number `n`, and nothing is used yet.
    pub fn new(f: &'a Function) -> (ctx: Lower<'a>)
        requires
            f.wf(),
        ensures
            ctx.f == f,
            ctx.wf(),
            ctx.next_vreg == f.value_types@.len(),
            forall|v: int|
                0 <= v < f.value_types@.len() ==> #[trigger] ctx.value_regs@[v] == (Reg::Virtual {
                    index: v as usize,
                    class: f.value_types@[v].class(),
                }) && !ctx.lowered_uses@[v],
    {
        let mut value_regs: Vec<Reg> = Vec::new();
        let mut lowered_uses: Vec<bool> = Vec::new();
        let count: usize = f.value_types.len();
        let mut v: usize = 0;
        while v < count
            invariant
                v <= count,
                count == f.value_types@.len(),
                value_regs@.len() == v,
                lowered_uses@.len() == v,
                forall|w: int|
                    0 <= w < v ==> #[trigger] value_regs@[w] == (Reg::Virtual {
                        index: w as usize,
                        class: f.value_types@[w].class(),
                    }) && !lowered_uses@[w],
            decreases count - v,
        {
            value_regs.push(Reg::Virtual { index: v, class: f.value_types[v].reg_class() });
            lowered_uses.push(false);
            v = v + 1;
        }
        Lower { f, value_regs, lowered_uses, next_vreg: count }
    }

    /// A new virtual register for a value of type `ty`.
    pub fn alloc_tmp(&mut self, ty: Type) -> (reg: Reg)
        requires
            ty.in_one_reg(),
            old(self).next_vreg < MAX_VREGS,
        ensures
            reg == (Reg::Virtual { index: old(self).next_vreg, class: ty.class() }),
            final(self).f == old(self).f,
            final(self).value_regs == old(self).value_regs,
            final(self).lowered_uses == old(self).lowered_uses,
            final(self).next_vreg == old(self).next_vreg + 1,
    {
        let reg = Reg::Virtual { index: self.next_vreg, class: ty.reg_class() };
        self.next_vreg = self.next_vreg + 1;
        reg
    }

    /// The register of an operand, which is thereby used.
    pub fn put_input_in_regs(&mut self, inst: Inst, index: usize) -> (reg: Reg)
        requires
            old(self).wf(),
            inst.0 < old(self).f.insts@.len(),
            index < old(self).inputs(inst).len(),
            old(self).ty(old(self).inputs(inst)[index as int]).in_one_reg(),
        ensures
            ({
                let value = old(self).inputs(inst)[index as int];
                &&& reg == old(self).value_regs@[value.0 as int]
                &&& final(self).lowered_uses@ == old(self).lowered_uses@.update(
                    value.0 as int,
                    true,
                )
            }),
            final(self).wf(),
            final(self).f == old(self).f,
            final(self).value_regs == old(self).value_regs,
            final(self).next_vreg == old(self).next_vreg,
    {
        assert(self.f.inst_wf(self.f.insts@[inst.0 as int]));
        let value = self.f.insts[inst.0].args[index];
        self.lowered_uses.set(value.0, true);
        self.value_regs[value.0]
    }

    /// An instruction lowered so far takes the result from a register.
    pub fn nixe_result_is_used(&self, inst: Inst, index: usize) -> (used: bool)
        requires
            self.wf(),
            inst.0 < self.f.insts@.len(),
            index < self.outputs(inst).len(),
        ensures
            used == self.lowered_uses@[self.outputs(inst)[index as int].0 as int],
    {
        assert(self.f.inst_wf(self.f.insts@[inst.0 as int]));
        self.lowered_uses[self.f.insts[inst.0].results[index].0]
    }
}

/// The low `width` bits of an immediate, for the widths that integer types of at
/// most 64 bits have.
pub open spec fn low_bits(imm: i64, width: u32) -> u64 {
    let word = ir::word64(imm);
    if width == 8 {
        word % 0x100
    } else if width == 16 {
        word % 0x1_0000
    } else if width == 32 {
        word % 0x1_0000_0000
    } else {
        word
    }
}

/// The 64-bit word that eight little-endian bytes from `start` on hold.
pub open spec fn from_le64(bytes: Seq<u8>, start: int) -> u64 {
    (bytes[start] + bytes[start + 1] * 0x100 + bytes[start + 2] * 0x1_0000 + bytes[start + 3]
        * 0x100_0000 + bytes[start + 4] * 0x1_0000_0000 + bytes[start + 5] * 0x100_0000_0000
        + bytes[start + 6] * 0x1_0000_0000_0000 + bytes[start + 7] * 0x100_0000_0000_0000) as u64
}

fn read_le64(bytes: &Vec<u8>, start: usize) -> (word: u64)
    requires
        start + 8 <= bytes@.len(),
    ensures
        word == from_le64(bytes@, start as int),
{
    let len: usize = bytes.len();
    assert(start + 8 <= len);
    bytes[start] as u64 + bytes[start + 1] as u64 * 0x100 + bytes[start + 2] as u64 * 0x1_0000
        + bytes[start + 3] as u64 * 0x100_0000 + bytes[start + 4] as u64 * 0x1_0000_0000
        + bytes[start + 5] as u64 * 0x100_0000_0000 + bytes[start + 6] as u64 * 0x1_0000_0000_0000
        + bytes[start + 7] as u64 * 0x100_0000_0000_0000
}

/// The exact bits of a value that a literal defines: its low and high words.
pub open spec fn literal(f: Function, value: Value) -> Option<[u64; 2]> {
    match f.value_defs@[value.0 as int] {
        None => None,
        Some(definition) => match f.insts@[definition.0 as int].data {
            InstructionData::UnaryImm { opcode: Opcode::Iconst, imm } => {
                let width = f.value_types@[value.0 as int].width();
                if width <= 64 {
                    Some([low_bits(imm, width), 0])
                } else {
                    None
                }
            },
            InstructionData::UnaryIeee32 { bits } => Some([bits as u64, 0]),
            InstructionData::UnaryIeee64 { pattern } => Some([pattern, 0]),
            InstructionData::UnaryConst { constant } => {
                let bytes = f.constants@[constant as int]@;
                if bytes.len() == 16 {
                    Some([from_le64(bytes, 0), from_le64(bytes, 8)])
                } else {
                    None
                }
            },
            _ => None,
        },
    }
}

/// The value is an integer literal of the fragment.
pub open spec fn is_integer_literal(f: Function, value: Value, imm: i64) -> bool {
    &&& f.value_defs@[value.0 as int] matches Some(definition)
    &&& f.insts@[definition.0 as int].data == (InstructionData::UnaryImm {
        opcode: Opcode::Iconst,
        imm,
    })
}

/// The low bits of an immediate are below two to their number, and two immediates
/// have the same low bits exactly if they agree modulo that.
pub proof fn lemma_low_bits_modulo(x: i64, y: i64, width: u32)
    requires
        width == 8 || width == 16 || width == 32 || width == 64,
    ensures
        low_bits(x, width) < power2::pow2(width as nat),
        low_bits(x, width) == low_bits(y, width) <==> x as int % power2::pow2(width as nat) as int
            == y as int % power2::pow2(width as nat) as int,
{
    power2::lemma2_to64();
    lemma_low_bits_residue(x, width);
    lemma_low_bits_residue(y, width);
}

proof fn lemma_low_bits_residue(x: i64, width: u32)
    requires
        width == 8 || width == 16 || width == 32 || width == 64,
    ensures
        low_bits(x, width) == x as int % (if width == 8 {
            0x100
        } else if width == 16 {
            0x1_0000
        } else if width == 32 {
            0x1_0000_0000
        } else {
            0x1_0000_0000_0000_0000
        }),
{
    let word = ir::word64(x) as int;
    assert(word == x as int % 0x1_0000_0000_0000_0000);
    if width == 8 {
        div_mod::lemma_mod_mod(x as int, 0x100, 0x100_0000_0000_0000);
    } else if width == 16 {
        div_mod::lemma_mod_mod(x as int, 0x1_0000, 0x1_0000_0000_0000);
    } else if width == 32 {
        div_mod::lemma_mod_mod(x as int, 0x1_0000_0000, 0x1_0000_0000);
    }
}

/// Literals of one integer type of at most 64 bits are carried as one word that
/// the type holds, and are equal exactly if they agree modulo two to the width.
pub proof fn lemma_integer_literals_modulo(f: Function, a: Value, b: Value, x: i64, y: i64)
    requires
        is_integer_literal(f, a, x),
        is_integer_literal(f, b, y),
        f.value_types@[a.0 as int] == f.value_types@[b.0 as int],
        f.value_types@[a.0 as int].width() <= 64,
    ensures
        ({
            let width = f.value_types@[a.0 as int].width();
            let modulus = power2::pow2(width as nat) as int;
            &&& literal(f, a) == Some([low_bits(x, width), 0u64])
            &&& literal(f, b) == Some([low_bits(y, width), 0u64])
            &&& low_bits(x, width) < modulus
            &&& low_bits(y, width) < modulus
            &&& literal(f, a) == literal(f, b) <==> x as int % modulus == y as int % modulus
        }),
{
    let width = f.value_types@[a.0 as int].width();
    lemma_low_bits_modulo(x, y, width);
    lemma_low_bits_modulo(y, x, width);
    let (one, other) = ([low_bits(x, width), 0u64], [low_bits(y, width), 0u64]);
    assert(one@[0] == low_bits(x, width) && other@[0] == low_bits(y, width));
}

impl Boundary {
    /// The exact bits of an operand that a literal defines. Only literal
    /// definitions are consumed; no location is predicted. Literals are carried
    /// unchanged through allocation, so that one that only boundaries use needs
    /// no machine instruction.
    pub fn constant(ctx: &Lower, inst: Inst, index: usize) -> (bits: Option<[u64; 2]>)
        requires
            ctx.wf(),
            inst.0 < ctx.f.insts@.len(),
            index < ctx.inputs(inst).len(),
        ensures
            bits == literal(*ctx.f, ctx.inputs(inst)[index as int]),
    {
        assert(ctx.f.inst_wf(ctx.f.insts@[inst.0 as int]));
        let value = ctx.f.insts[inst.0].args[index];
        let definition = match ctx.f.value_defs[value.0] {
            Some(definition) => definition,
            None => return None,
        };
        assert(ctx.f.inst_wf(ctx.f.insts@[definition.0 as int]));
        match ctx.f.insts[definition.0].data {
            InstructionData::UnaryImm { opcode: Opcode::Iconst, imm } => {
                let width = ctx.f.value_types[value.0].bits();
                if width > 64 {
                    return None;
                }
                let word = imm_bits(imm);
                let low = if width == 8 {
                    word % 0x100
                } else if width == 16 {
                    word % 0x1_0000
                } else if width == 32 {
                    word % 0x1_0000_0000
                } else {
                    word
                };
                Some([low, 0])
            },
            InstructionData::UnaryIeee32 { bits } => Some([bits as u64, 0]),
            InstructionData::UnaryIeee64 { pattern } => Some([pattern, 0]),
            InstructionData::UnaryConst { constant } => {
                let bytes = &ctx.f.constants[constant];
                if bytes.len() == 16 {
                    Some([read_le64(bytes, 0), read_le64(bytes, 8)])
                } else {
                    None
                }
            },
            _ => None,
        }
    }
}

/// `b` only subtracts the work that the instruction names.
pub open spec fn is_charge(b: Boundary, imm: i64) -> bool {
    &&& b.id == 0
    &&& !b.entry && !b.exit && !b.check
    &&& b.poll_cost is None
    &&& b.charge == Some((ir::word64(imm) % 0x1_0000) as u16)
    &&& b.compare is None
    &&& b.fault_pos == OperandPos::Early
    &&& b.values@.len() == 0
    &&& b.entry_constraints@.len() == 0
}

/// The register that an entry gives to its result number `i`.
pub open spec fn entry_reg(ctx: Lower, inst: Inst, i: int) -> Reg {
    Reg::Virtual {
        index: (ctx.next_vreg + i) as usize,
        class: ctx.ty(ctx.outputs(inst)[i]).class(),
    }
}

/// The operands of an entry: a new register for each result that is used.
pub open spec fn entry_values(ctx: Lower, inst: Inst) -> Seq<(BoundaryValue, Type)> {
    Seq::new(
        ctx.outputs(inst).len(),
        |i: int|
            {
                let result = ctx.outputs(inst)[i];
                (
                    if ctx.lowered_uses@[result.0 as int] {
                        BoundaryValue::Register(entry_reg(ctx, inst, i))
                    } else {
                        BoundaryValue::Unused
                    },
                    ctx.ty(result),
                )
            },
    )
}

/// The constraints that the caller put on the results of an entry.
pub open spec fn constraints_of(f: Function, id: u64) -> Seq<EntryConstraint> {
    if f.nixe_entry_constraints@.contains_key(id) {
        f.nixe_entry_constraints@[id]@
    } else {
        Seq::empty()
    }
}

/// `b` defines the results of the entry.
pub open spec fn is_entry(b: Boundary, ctx: Lower, inst: Inst, imm: i64) -> bool {
    &&& b.id == ir::word64(imm)
    &&& b.entry && !b.exit && !b.check
    &&& b.poll_cost is None
    &&& b.charge is None
    &&& b.compare is None
    &&& b.fault_pos == OperandPos::Early
    &&& b.values@ == entry_values(ctx, inst)
    &&& b.entry_constraints@ == constraints_of(*ctx.f, ir::word64(imm))
}

/// The comparison that the caller put on an exit.
pub open spec fn compare_of(f: Function, id: u64) -> Option<ExitCompare> {
    if f.nixe_exit_compares@.contains_key(id) {
        Some(f.nixe_exit_compares@[id])
    } else {
        None
    }
}

/// The cost that the caller put on an exit.
pub open spec fn cost_of(f: Function, id: u64) -> Option<u16> {
    if f.nixe_exit_costs@.contains_key(id) {
        Some(f.nixe_exit_costs@[id])
    } else {
        None
    }
}

/// Operand number `i` is carried as a literal and not in a register: a literal
/// defines it, and it is not compared.
pub open spec fn carried_as_literal(ctx: Lower, inst: Inst, id: u64, i: int) -> bool {
    &&& !(compare_of(*ctx.f, id) matches Some(c) && (i == c.lhs || i == c.rhs))
    &&& literal(*ctx.f, ctx.inputs(inst)[i]) is Some
}

/// The operands of a boundary that uses values.
pub open spec fn use_values(ctx: Lower, inst: Inst, id: u64) -> Seq<(BoundaryValue, Type)> {
    Seq::new(
        ctx.inputs(inst).len(),
        |i: int|
            {
                let input = ctx.inputs(inst)[i];
                (
                    if carried_as_literal(ctx, inst, id, i) {
                        BoundaryValue::Constant(literal(*ctx.f, input)->Some_0)
                    } else {
                        BoundaryValue::Register(ctx.value_regs@[input.0 as int])
                    },
                    ctx.ty(input),
                )
            },
    )
}

/// `b` uses the operands of the instruction.
pub open spec fn is_use(b: Boundary, ctx: Lower, inst: Inst, opcode: Opcode, imm: i64) -> bool {
    let id = ir::word64(imm);
    &&& b.id == id
    &&& !b.entry
    &&& b.exit == (opcode == Opcode::NixeExit)
    &&& b.check == (opcode == Opcode::NixeCheck)
    &&& b.poll_cost == cost_of(*ctx.f, id)
    &&& b.charge is None
    &&& b.compare == compare_of(*ctx.f, id)
    &&& b.fault_pos == OperandPos::Early
    &&& b.values@ == use_values(ctx, inst, id)
    &&& b.entry_constraints@.len() == 0
}

/// The values used in registers once the first `count` operands are: those that
/// were, and those operands that are not carried as literals.
pub open spec fn uses_after(ctx: Lower, inst: Inst, id: u64, count: int, v: int) -> bool {
    ctx.lowered_uses@[v] || exists|i: int|
        0 <= i < count && (#[trigger] ctx.inputs(inst)[i]).0 == v && !carried_as_literal(
            ctx,
            inst,
            id,
            i,
        )
}

impl Boundary {
    /// The instruction can be lowered: a register holds each of its operands or
    /// results, and there are enough registers.
    pub open spec fn lowerable(ctx: Lower, inst: Inst) -> bool {
        &&& ctx.wf()
        &&& inst.0 < ctx.f.insts@.len()
        &&& match ctx.f.insts@[inst.0 as int].data {
            InstructionData::NixeEntry { .. } => {
                &&& ctx.next_vreg + ctx.outputs(inst).len() <= MAX_VREGS
                &&& forall|i: int|
                    0 <= i < ctx.outputs(inst).len() ==> ctx.ty(
                        #[trigger] ctx.outputs(inst)[i],
                    ).in_one_reg()
            },
            InstructionData::NixeBoundary { .. } => forall|i: int|
                0 <= i < ctx.inputs(inst).len() ==> ctx.ty(
                    #[trigger] ctx.inputs(inst)[i],
                ).in_one_reg(),
            _ => true,
        }
    }

    /// Lowers a boundary instruction to its machine-level operands and the
    /// registers of its results; any other instruction is left alone.
    pub fn lower(ctx: &mut Lower, inst: Inst) -> (lowered: Option<(Box<Boundary>, Vec<Reg>)>)
        requires
            Boundary::lowerable(*old(ctx), inst),
        ensures
            final(ctx).wf(),
            final(ctx).f == old(ctx).f,
            final(ctx).value_regs == old(ctx).value_regs,
            match old(ctx).f.insts@[inst.0 as int].data {
                InstructionData::UnaryImm { opcode: Opcode::NixeCharge, imm } => {
                    &&& lowered matches Some((b, outputs))
                    &&& is_charge(*b, imm)
                    &&& outputs@.len() == 0
                    &&& final(ctx).lowered_uses@ == old(ctx).lowered_uses@
                    &&& final(ctx).next_vreg == old(ctx).next_vreg
                },
                InstructionData::NixeEntry { imm } => {
                    &&& lowered matches Some((b, outputs))
                    &&& is_entry(*b, *old(ctx), inst, imm)
                    &&& outputs@ == Seq::new(
                        old(ctx).outputs(inst).len(),
                        |i: int| entry_reg(*old(ctx), inst, i),
                    )
                    &&& final(ctx).lowered_uses@ == old(ctx).lowered_uses@
                    &&& final(ctx).next_vreg == old(ctx).next_vreg + old(ctx).outputs(inst).len()
                },
                InstructionData::NixeBoundary { opcode, imm } => {
                    &&& lowered matches Some((b, outputs))
                    &&& is_use(*b, *old(ctx), inst, opcode, imm)
                    &&& outputs@.len() == 0
                    &&& forall|v: int|
                        0 <= v < old(ctx).lowered_uses@.len() ==> #[trigger] final(ctx).lowered_uses@[v] == uses_after(
                            *old(ctx),
                            inst,
                            ir::word64(imm),
                            old(ctx).inputs(inst).len() as int,
                            v,
                        )
                    &&& final(ctx).next_vreg == old(ctx).next_vreg
                },
                _ => {
                    &&& lowered is None
                    &&& final(ctx).lowered_uses@ == old(ctx).lowered_uses@
                    &&& final(ctx).next_vreg == old(ctx).next_vreg
                },
            },
    {
        match ctx.f.insts[inst.0].data {
            InstructionData::UnaryImm { opcode: Opcode::NixeCharge, imm } => Some(
                (
                    Box::new(
                        Boundary {
                            id: 0,
                            entry: false,
                            exit: false,
                            check: false,
                            poll_cost: None,
                            charge: Some((imm_bits(imm) % 0x1_0000) as u16),
                            compare: None,
                            fault_pos: OperandPos::Early,
                            values: Vec::new(),
                            entry_constraints: Vec::new(),
                        },
                    ),
                    Vec::new(),
                ),
            ),
            InstructionData::NixeEntry { imm } => {
                let (values, outputs) = Boundary::lower_results(ctx, inst);
                let id = imm_bits(imm);
                let entry_constraints = match ctx.f.nixe_entry_constraints.get(&id) {
                    Some(constraints) => copy_constraints(constraints),
                    None => Vec::new(),
                };
                Some(
                    (
                        Box::new(
                            Boundary {
                                id,
                                entry: true,
                                exit: false,
                                check: false,
                                poll_cost: None,
                                charge: None,
                                compare: None,
                                fault_pos: OperandPos::Early,
                                values,
                                entry_constraints,
                            },
                        ),
                        outputs,
                    ),
                )
            },
            InstructionData::NixeBoundary { opcode, imm } => {
                let id = imm_bits(imm);
                let compare = match ctx.f.nixe_exit_compares.get(&id) {
                    Some(compare) => Some(*compare),
                    None => None,
                };
                let poll_cost = match ctx.f.nixe_exit_costs.get(&id) {
                    Some(cost) => Some(*cost),
                    None => None,
                };
                let values = Boundary::lower_inputs(ctx, inst, Ghost(id), compare);
                Some(
                    (
                        Box::new(
                            Boundary {
                                id,
                                entry: false,
                                exit: opcode == Opcode::NixeExit,
                                check: opcode == Opcode::NixeCheck,
                                poll_cost,
                                charge: None,
                                compare,
                                fault_pos: OperandPos::Early,
                                values,
                                entry_constraints: Vec::new(),
                            },
                        ),
                        Vec::new(),
                    ),
                )
            },
            _ => None,
        }
    }

    /// New registers for the results of an entry.
    fn lower_results(ctx: &mut Lower, inst: Inst) -> (lowered: (
        Vec<(BoundaryValue, Type)>,
        Vec<Reg>,
    ))
        requires
            Boundary::lowerable(*old(ctx), inst),
            old(ctx).f.insts@[inst.0 as int].data is NixeEntry,
        ensures
            lowered.0@ == entry_values(*old(ctx), inst),
            lowered.1@ == Seq::new(
                old(ctx).outputs(inst).len(),
                |i: int| entry_reg(*old(ctx), inst, i),
            ),
            final(ctx).wf(),
            final(ctx).f == old(ctx).f,
            final(ctx).value_regs == old(ctx).value_regs,
            final(ctx).lowered_uses == old(ctx).lowered_uses,
            final(ctx).next_vreg == old(ctx).next_vreg + old(ctx).outputs(inst).len(),
    {
        let ghost before = *ctx;
        let mut values: Vec<(BoundaryValue, Type)> = Vec::new();
        let mut outputs: Vec<Reg> = Vec::new();
        let count: usize = ctx.f.insts[inst.0].results.len();
        let mut index: usize = 0;
        while index < count
            invariant
                index <= count,
                count == before.outputs(inst).len(),
                Boundary::lowerable(before, inst),
                before.f.insts@[inst.0 as int].data is NixeEntry,
                values@ == entry_values(before, inst).take(index as int),
                outputs@ == Seq::new(index as nat, |i: int| entry_reg(before, inst, i)),
                ctx.wf(),
                ctx.f == before.f,
                ctx.value_regs == before.value_regs,
                ctx.lowered_uses == before.lowered_uses,
                ctx.next_vreg == before.next_vreg + index,
            decreases count - index,
        {
            assert(before.f.inst_wf(before.f.insts@[inst.0 as int]));
            let result = ctx.f.insts[inst.0].results[index];
            assert(result == before.outputs(inst)[index as int]);
            let ty = ctx.f.value_types[result.0];
            let reg = ctx.alloc_tmp(ty);
            let value = if ctx.nixe_result_is_used(inst, index) {
                BoundaryValue::Register(reg)
            } else {
                BoundaryValue::Unused
            };
            values.push((value, ty));
            outputs.push(reg);
            index = index + 1;
            assert(values@ =~= entry_values(before, inst).take(index as int));
            assert(outputs@ =~= Seq::new(index as nat, |i: int| entry_reg(before, inst, i)));
        }
        assert(values@ =~= entry_values(before, inst));
        (values, outputs)
    }

    /// The operands of a boundary that uses values.
    fn lower_inputs(
        ctx: &mut Lower,
        inst: Inst,
        Ghost(id): Ghost<u64>,
        compare: Option<ExitCompare>,
    ) -> (values: Vec<(BoundaryValue, Type)>)
        requires
            Boundary::lowerable(*old(ctx), inst),
            old(ctx).f.insts@[inst.0 as int].data is NixeBoundary,
            compare == compare_of(*old(ctx).f, id),
        ensures
            values@ == use_values(*old(ctx), inst, id),
            final(ctx).wf(),
            final(ctx).f == old(ctx).f,
            final(ctx).value_regs == old(ctx).value_regs,
            final(ctx).next_vreg == old(ctx).next_vreg,
            forall|v: int|
                0 <= v < old(ctx).lowered_uses@.len() ==> #[trigger] final(ctx).lowered_uses@[v]
                    == uses_after(*old(ctx), inst, id, old(ctx).inputs(inst).len() as int, v),
    {
        let ghost before = *ctx;
        let mut values: Vec<(BoundaryValue, Type)> = Vec::new();
        let count: usize = ctx.f.insts[inst.0].args.len();
        let mut index: usize = 0;
        while index < count
            invariant
                index <= count,
                count == before.inputs(inst).len(),
                Boundary::lowerable(before, inst),
                before.f.insts@[inst.0 as int].data is NixeBoundary,
                compare == compare_of(*before.f, id),
                values@ == use_values(before, inst, id).take(index as int),
                ctx.wf(),
                ctx.f == before.f,
                ctx.value_regs == before.value_regs,
                ctx.next_vreg == before.next_vreg,
                forall|v: int|
                    0 <= v < before.lowered_uses@.len() ==> #[trigger] ctx.lowered_uses@[v]
                        == uses_after(before, inst, id, index as int, v),
            decreases count - index,
        {
            assert(before.f.inst_wf(before.f.insts@[inst.0 as int]));
            let input = ctx.f.insts[inst.0].args[index];
            assert(input == before.inputs(inst)[index as int]);
            let ty = ctx.f.value_types[input.0];
            let compared = match compare {
                Some(c) => index == c.lhs || index == c.rhs,
                None => false,
            };
            let bits = if compared {
                None
            } else {
                Boundary::constant(ctx, inst, index)
            };
            let ghost uses = ctx.lowered_uses@;
            let value = match bits {
                Some(bits) => BoundaryValue::Constant(bits),
                None => BoundaryValue::Register(ctx.put_input_in_regs(inst, index)),
            };
            values.push((value, ty));
            proof {
                assert forall|v: int| 0 <= v < before.lowered_uses@.len() implies #[trigger] ctx.lowered_uses@[v]
                    == uses_after(before, inst, id, index + 1, v) by {
                    assert(uses[v] == uses_after(before, inst, id, index as int, v));
                    if uses_after(before, inst, id, index + 1, v) && !uses[v] {
                        let i = choose|i: int|
                            0 <= i < index + 1 && (#[trigger] before.inputs(inst)[i]).0 == v
                                && !carried_as_literal(before, inst, id, i);
                        assert(i == index);
                    }
                }
            }
            index = index + 1;
            assert(values@ =~= use_values(before, inst, id).take(index as int));
        }
        assert(values@ =~= use_values(before, inst, id));
        values
    }
}

fn copy_constraints(constraints: &Vec<EntryConstraint>) -> (copy: Vec<EntryConstraint>)
    ensures
        copy@ == constraints@,
{
    let mut copy: Vec<EntryConstraint> = Vec::new();
    let mut done: usize = 0;
    while done < constraints.len()
        invariant
            done <= constraints@.len(),
            copy@ == constraints@.take(done as int),
        decreases constraints@.len() - done,
    {
        copy.push(constraints[done]);
        done = done + 1;
        assert(copy@ =~= constraints@.take(done as int));
    }
    assert(constraints@.take(done as int) =~= constraints@);
    copy
}

} // verus!
