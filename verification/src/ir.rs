//! The part of a fragment's intermediate representation that boundaries read.

use std::collections::BTreeMap;

use vstd::prelude::*;

use crate::state_map::{EntryConstraint, ExitCompare};
use crate::types::Type;

verus! {

broadcast use vstd::std_specs::btree::group_btree_axioms;

/// A value, by its number.
#[derive(Clone, Copy, Debug, PartialEq, Eq, Structural)]
pub struct Value(pub usize);

/// An instruction, by its number.
#[derive(Clone, Copy, Debug, PartialEq, Eq, Structural)]
pub struct Inst(pub usize);

/// A block, by its number, which is its place in the layout.
#[derive(Clone, Copy, Debug, PartialEq, Eq, Structural)]
pub struct Block(pub usize);

/// What an instruction does.
#[derive(Clone, Copy, Debug, PartialEq, Eq, Structural)]
pub enum Opcode {
    Iconst,
    F32const,
    F64const,
    Vconst,
    Iadd,
    IaddImm,
    FcvtFromSint,
    GetPinnedReg,
    StackAddr,
    Load,
    Store,
    AtomicXor,
    Trapnz,
    Jump,
    Brif,
    Return,
    NixeCharge,
    NixeEntry,
    NixeState,
    NixeCheck,
    NixeExit,
    NixeFaultStart,
    NixeFaultEnd,
}

/// The immediate part of an instruction.
#[derive(Clone, Copy, Debug, PartialEq, Eq, Structural)]
pub enum InstructionData {
    /// `Iconst` and `NixeCharge`.
    UnaryImm { opcode: Opcode, imm: i64 },
    /// `F32const`, by the bits of the number.
    UnaryIeee32 { bits: u32 },
    /// `F64const`, by the bits of the number.
    UnaryIeee64 { pattern: u64 },
    /// `Vconst`, by the handle of its bytes.
    UnaryConst { constant: usize },
    /// `NixeEntry`, with the boundary identity.
    NixeEntry { imm: i64 },
    /// The other boundary instructions, with the boundary identity.
    NixeBoundary { opcode: Opcode, imm: i64 },
    /// `Load`, `Store` and `AtomicXor`.
    Memory { opcode: Opcode, offset: i32, notrap: bool },
    /// Any other instruction.
    Other { opcode: Opcode, imm: i64 },
}

/// A branch destination with the arguments of its parameters.
#[derive(Clone, Debug)]
pub struct BlockCall {
    pub block: Block,
    pub args: Vec<Value>,
}

/// An instruction with its operands.
#[derive(Clone, Debug)]
pub struct InstNode {
    pub data: InstructionData,
    pub args: Vec<Value>,
    pub results: Vec<Value>,
    pub targets: Vec<BlockCall>,
}

/// A block of the layout.
#[derive(Clone, Debug)]
pub struct BlockNode {
    pub params: Vec<Value>,
    pub insts: Vec<Inst>,
    pub cold: bool,
}

/// A fragment.
#[derive(Clone, Debug)]
pub struct Function {
    /// All instructions, by number.
    pub insts: Vec<InstNode>,
    /// The types of all values, by number.
    pub value_types: Vec<Type>,
    /// The instructions that define the values; none for a block parameter.
    pub value_defs: Vec<Option<Inst>>,
    /// The bytes of vector literals, by handle.
    pub constants: Vec<Vec<u8>>,
    /// The blocks, in layout order.
    pub blocks: Vec<BlockNode>,
    /// The sizes of the explicit stack slots.
    pub stack_slots: Vec<u32>,
    /// Constraints on entry results, by entry identity.
    pub nixe_entry_constraints: BTreeMap<u64, Vec<EntryConstraint>>,
    /// Exit comparisons, by exit identity.
    pub nixe_exit_compares: BTreeMap<u64, ExitCompare>,
    /// Costs of checked exits, by exit identity.
    pub nixe_exit_costs: BTreeMap<u64, u16>,
    /// The effects of floating-point operations can be observed.
    pub nixe_observable_fp: bool,
}

/// The 64-bit word of an immediate, read as two's complement.
pub open spec fn word64(imm: i64) -> u64 {
    (imm as int % 0x1_0000_0000_0000_0000) as u64
}

/// The 64-bit word of an immediate.
pub fn imm_bits(imm: i64) -> (bits: u64)
    ensures
        bits == word64(imm),
{
    if imm < 0 {
        (imm as i128 + 0x1_0000_0000_0000_0000) as u64
    } else {
        imm as u64
    }
}

impl Function {
    /// All values of `values` exist.
    pub open spec fn has_values(self, values: Seq<Value>) -> bool {
        forall|i: int| 0 <= i < values.len() ==> (#[trigger] values[i]).0 < self.value_types@.len()
    }

    /// The instruction refers to what exists only.
    pub open spec fn inst_wf(self, inst: InstNode) -> bool {
        &&& self.has_values(inst.args@)
        &&& self.has_values(inst.results@)
        &&& inst.data matches InstructionData::UnaryConst { constant } ==> constant
            < self.constants@.len()
        &&& forall|t: int|
            0 <= t < inst.targets@.len() ==> (#[trigger] inst.targets@[t]).block.0
                < self.blocks@.len() && self.has_values(inst.targets@[t].args@)
    }

    /// Everything that the fragment refers to exists.
    pub open spec fn wf(self) -> bool {
        &&& self.value_defs@.len() == self.value_types@.len()
        &&& forall|v: int|
            0 <= v < self.value_defs@.len() ==> (#[trigger] self.value_defs@[v] matches Some(inst)
                ==> inst.0 < self.insts@.len())
        &&& forall|i: int| 0 <= i < self.insts@.len() ==> self.inst_wf(#[trigger] self.insts@[i])
        &&& forall|b: int|
            0 <= b < self.blocks@.len() ==> self.has_values(
                (#[trigger] self.blocks@[b]).params@,
            ) && forall|k: int|
                0 <= k < self.blocks@[b].insts@.len() ==> (
                #[trigger] self.blocks@[b].insts@[k]).0 < self.insts@.len()
    }
}

impl InstructionData {
    /// What the instruction does.
    pub open spec fn op(self) -> Opcode {
        match self {
            InstructionData::UnaryImm { opcode, .. } => opcode,
            InstructionData::UnaryIeee32 { .. } => Opcode::F32const,
            InstructionData::UnaryIeee64 { .. } => Opcode::F64const,
            InstructionData::UnaryConst { .. } => Opcode::Vconst,
            InstructionData::NixeEntry { .. } => Opcode::NixeEntry,
            InstructionData::NixeBoundary { opcode, .. } => opcode,
            InstructionData::Memory { opcode, .. } => opcode,
            InstructionData::Other { opcode, .. } => opcode,
        }
    }

    /// What the instruction does.
    #[verifier::when_used_as_spec(op)]
    pub fn opcode(self) -> (opcode: Opcode)
        ensures
            opcode == self.op(),
    {
        match self {
            InstructionData::UnaryImm { opcode, .. } => opcode,
            InstructionData::UnaryIeee32 { .. } => Opcode::F32const,
            InstructionData::UnaryIeee64 { .. } => Opcode::F64const,
            InstructionData::UnaryConst { .. } => Opcode::Vconst,
            InstructionData::NixeEntry { .. } => Opcode::NixeEntry,
            InstructionData::NixeBoundary { opcode, .. } => opcode,
            InstructionData::Memory { opcode, .. } => opcode,
            InstructionData::Other { opcode, .. } => opcode,
        }
    }
}

/// The contents of an instruction.
#[verifier::ext_equal]
pub struct InstView {
    pub data: InstructionData,
    pub args: Seq<Value>,
    pub results: Seq<Value>,
    pub targets: Seq<(Block, Seq<Value>)>,
}

/// The contents of a block.
#[verifier::ext_equal]
pub struct BlockView {
    pub params: Seq<Value>,
    pub insts: Seq<Inst>,
    pub cold: bool,
}

/// The contents of a fragment.
#[verifier::ext_equal]
pub struct FunctionView {
    pub insts: Seq<InstView>,
    pub value_types: Seq<Type>,
    pub value_defs: Seq<Option<Inst>>,
    pub constants: Seq<Seq<u8>>,
    pub blocks: Seq<BlockView>,
    pub stack_slots: Seq<u32>,
    pub entry_constraints: Map<u64, Seq<EntryConstraint>>,
    pub exit_compares: Map<u64, ExitCompare>,
    pub exit_costs: Map<u64, u16>,
    pub observable_fp: bool,
}

impl View for InstNode {
    type V = InstView;

    open spec fn view(&self) -> InstView {
        InstView {
            data: self.data,
            args: self.args@,
            results: self.results@,
            targets: self.targets@.map_values(|call: BlockCall| (call.block, call.args@)),
        }
    }
}

impl View for BlockNode {
    type V = BlockView;

    open spec fn view(&self) -> BlockView {
        BlockView { params: self.params@, insts: self.insts@, cold: self.cold }
    }
}

impl View for Function {
    type V = FunctionView;

    open spec fn view(&self) -> FunctionView {
        FunctionView {
            insts: self.insts@.map_values(|inst: InstNode| inst@),
            value_types: self.value_types@,
            value_defs: self.value_defs@,
            constants: self.constants@.map_values(|bytes: Vec<u8>| bytes@),
            blocks: self.blocks@.map_values(|block: BlockNode| block@),
            stack_slots: self.stack_slots@,
            entry_constraints: self.nixe_entry_constraints@.map_values(
                |constraints: Vec<EntryConstraint>| constraints@,
            ),
            exit_compares: self.nixe_exit_compares@,
            exit_costs: self.nixe_exit_costs@,
            observable_fp: self.nixe_observable_fp,
        }
    }
}

/// The `count` values from number `first` on.
pub open spec fn values_from(first: int, count: nat) -> Seq<Value> {
    Seq::new(count, |i: int| Value((first + i) as usize))
}

impl FunctionView {
    /// A fragment without anything.
    pub open spec fn empty() -> FunctionView {
        FunctionView {
            insts: Seq::empty(),
            value_types: Seq::empty(),
            value_defs: Seq::empty(),
            constants: Seq::empty(),
            blocks: Seq::empty(),
            stack_slots: Seq::empty(),
            entry_constraints: Map::empty(),
            exit_compares: Map::empty(),
            exit_costs: Map::empty(),
            observable_fp: false,
        }
    }

    /// The fragment with one more block, an empty one.
    pub open spec fn with_block(self) -> FunctionView {
        FunctionView {
            blocks: self.blocks.push(
                BlockView { params: Seq::empty(), insts: Seq::empty(), cold: false },
            ),
            ..self
        }
    }

    /// The fragment with one more parameter of a block.
    pub open spec fn with_param(self, block: int, ty: Type) -> FunctionView {
        FunctionView {
            value_types: self.value_types.push(ty),
            value_defs: self.value_defs.push(None),
            blocks: self.blocks.update(
                block,
                BlockView {
                    params: self.blocks[block].params.push(
                        Value(self.value_types.len() as usize),
                    ),
                    ..self.blocks[block]
                },
            ),
            ..self
        }
    }

    /// The fragment with one more instruction, at place `at` of a block. Its
    /// results are new values.
    pub open spec fn with_inst(
        self,
        block: int,
        at: int,
        data: InstructionData,
        args: Seq<Value>,
        result_types: Seq<Type>,
        targets: Seq<(Block, Seq<Value>)>,
    ) -> FunctionView {
        let inst = Inst(self.insts.len() as usize);
        FunctionView {
            insts: self.insts.push(
                InstView {
                    data,
                    args,
                    results: values_from(self.value_types.len() as int, result_types.len()),
                    targets,
                },
            ),
            value_types: self.value_types + result_types,
            value_defs: self.value_defs + Seq::new(result_types.len(), |i: int| Some(inst)),
            blocks: self.blocks.update(
                block,
                BlockView {
                    insts: self.blocks[block].insts.insert(at, inst),
                    ..self.blocks[block]
                },
            ),
            ..self
        }
    }
}

impl Function {
    /// An empty fragment.
    pub fn new() -> (f: Function)
        ensures
            f@ == FunctionView::empty(),
            f.wf(),
    {
        let f = Function {
            insts: Vec::new(),
            value_types: Vec::new(),
            value_defs: Vec::new(),
            constants: Vec::new(),
            blocks: Vec::new(),
            stack_slots: Vec::new(),
            nixe_entry_constraints: BTreeMap::new(),
            nixe_exit_compares: BTreeMap::new(),
            nixe_exit_costs: BTreeMap::new(),
            nixe_observable_fp: false,
        };
        assert(f@ =~= FunctionView::empty());
        f
    }

    /// Removes everything, constraints, comparisons and costs too.
    pub fn clear(&mut self)
        ensures
            final(self)@ == FunctionView::empty(),
            final(self).wf(),
    {
        *self = Function::new();
    }

    /// Appends an empty block to the layout.
    pub fn make_block(&mut self) -> (block: Block)
        requires
            old(self).wf(),
        ensures
            final(self).wf(),
            final(self)@ == old(self)@.with_block(),
            block.0 == old(self).blocks@.len(),
            final(self).blocks@.len() == block.0 + 1,
    {
        let block = Block(self.blocks.len());
        self.blocks.push(BlockNode { params: Vec::new(), insts: Vec::new(), cold: false });
        assert(self@ =~= old(self)@.with_block());
        proof {
            assert forall|i: int| 0 <= i < self.insts@.len() implies self.inst_wf(
                #[trigger] self.insts@[i],
            ) by {
                assert(old(self).inst_wf(old(self).insts@[i]));
            }
        }
        block
    }

    /// The instruction does something that can be observed even if nothing uses its
    /// result: it is a floating-point operation, in a fragment whose owner observes
    /// the effects of those.
    pub open spec fn observable_fp_effect(self, inst: Inst) -> bool {
        self.nixe_observable_fp && self.insts@[inst.0 as int].data.op() == Opcode::FcvtFromSint
    }

    /// The instruction has a floating-point effect that can be observed.
    pub fn has_observable_fp_effect(&self, inst: Inst) -> (observable: bool)
        requires
            inst.0 < self.insts@.len(),
        ensures
            observable == self.observable_fp_effect(inst),
    {
        self.nixe_observable_fp && self.insts[inst.0].data.opcode() == Opcode::FcvtFromSint
    }

    /// Inserts an instruction before place `at` of a block, with new values for
    /// its results.
    pub fn insert_inst(
        &mut self,
        block: Block,
        at: usize,
        data: InstructionData,
        args: Vec<Value>,
        result_types: &[Type],
        targets: Vec<BlockCall>,
    ) -> (inst: Inst)
        requires
            old(self).wf(),
            block.0 < old(self).blocks@.len(),
            at <= old(self).blocks@[block.0 as int].insts@.len(),
            old(self).inst_wf((InstNode { data, args, results: args, targets })),
            old(self).value_types@.len() + result_types@.len() <= usize::MAX,
        ensures
            final(self).wf(),
            final(self)@ == old(self)@.with_inst(
                block.0 as int,
                at as int,
                data,
                args@,
                result_types@,
                targets@.map_values(|call: BlockCall| (call.block, call.args@)),
            ),
            inst.0 == old(self).insts@.len(),
            final(self).insts@.len() == inst.0 + 1,
            final(self).blocks@.len() == old(self).blocks@.len(),
    {
        let ghost shown = InstNode { data, args, results: args, targets };
        let inst = Inst(self.insts.len());
        let base: usize = self.value_types.len();
        let mut results: Vec<Value> = Vec::new();
        let count: usize = result_types.len();
        let mut done: usize = 0;
        while done < count
            invariant
                done <= count,
                count == result_types@.len(),
                base == old(self).value_types@.len(),
                base + count <= usize::MAX,
                results@ == values_from(base as int, done as nat),
                self.value_types@ == old(self).value_types@ + result_types@.take(done as int),
                self.value_defs@ == old(self).value_defs@ + Seq::new(
                    done as nat,
                    |i: int| Some(inst),
                ),
                self.insts == old(self).insts,
                self.blocks == old(self).blocks,
                self.constants == old(self).constants,
                self.stack_slots == old(self).stack_slots,
                self.nixe_entry_constraints == old(self).nixe_entry_constraints,
                self.nixe_exit_compares == old(self).nixe_exit_compares,
                self.nixe_exit_costs == old(self).nixe_exit_costs,
                self.nixe_observable_fp == old(self).nixe_observable_fp,
            decreases count - done,
        {
            results.push(Value(base + done));
            self.value_types.push(result_types[done]);
            self.value_defs.push(Some(inst));
            done = done + 1;
            assert(results@ =~= values_from(base as int, done as nat));
            assert(self.value_types@ =~= old(self).value_types@ + result_types@.take(done as int));
            assert(self.value_defs@ =~= old(self).value_defs@ + Seq::new(
                done as nat,
                |i: int| Some(inst),
            ));
        }
        assert(result_types@.take(count as int) =~= result_types@);
        self.insts.push(InstNode { data, args, results, targets });
        self.blocks[block.0].insts.insert(at, inst);
        proof {
            assert(self@ =~= old(self)@.with_inst(
                block.0 as int,
                at as int,
                data,
                args@,
                result_types@,
                targets@.map_values(|call: BlockCall| (call.block, call.args@)),
            ));
            assert(self.insts@.drop_last() =~= old(self).insts@);
            let node = self.insts@.last();
            assert(old(self).inst_wf(shown));
            assert forall|t: int| 0 <= t < node.targets@.len() implies (
            #[trigger] node.targets@[t]).block.0 < self.blocks@.len() && self.has_values(
                node.targets@[t].args@,
            ) by {
                assert(shown.targets@[t].block.0 < old(self).blocks@.len());
                assert(old(self).has_values(shown.targets@[t].args@));
            }
            self.lemma_inserted(*old(self), block, at as int, inst);
        }
        inst
    }

    /// Appends an instruction to a block, with new values for its results.
    pub fn append_inst(
        &mut self,
        block: Block,
        data: InstructionData,
        args: Vec<Value>,
        result_types: &[Type],
        targets: Vec<BlockCall>,
    ) -> (inst: Inst)
        requires
            old(self).wf(),
            block.0 < old(self).blocks@.len(),
            old(self).inst_wf((InstNode { data, args, results: args, targets })),
            old(self).value_types@.len() + result_types@.len() <= usize::MAX,
        ensures
            final(self).wf(),
            final(self)@ == old(self)@.with_inst(
                block.0 as int,
                old(self).blocks@[block.0 as int].insts@.len() as int,
                data,
                args@,
                result_types@,
                targets@.map_values(|call: BlockCall| (call.block, call.args@)),
            ),
            inst.0 == old(self).insts@.len(),
            final(self).insts@.len() == inst.0 + 1,
            final(self).blocks@.len() == old(self).blocks@.len(),
    {
        let at: usize = self.blocks[block.0].insts.len();
        self.insert_inst(block, at, data, args, result_types, targets)
    }

    /// Everything still exists after an instruction was inserted.
    proof fn lemma_inserted(self, before: Function, block: Block, at: int, inst: Inst)
        requires
            before.wf(),
            block.0 < before.blocks@.len(),
            0 <= at <= before.blocks@[block.0 as int].insts@.len(),
            inst.0 == before.insts@.len(),
            self.insts@.len() == before.insts@.len() + 1,
            self.insts@.drop_last() == before.insts@,
            self.inst_wf(self.insts@.last()),
            before.value_types@.is_prefix_of(self.value_types@),
            before.value_defs@.is_prefix_of(self.value_defs@),
            self.value_types@.len() == self.value_defs@.len(),
            forall|v: int|
                before.value_defs@.len() <= v < self.value_defs@.len()
                    ==> #[trigger] self.value_defs@[v] == Some(inst),
            self.constants@ == before.constants@,
            self.blocks@.len() == before.blocks@.len(),
            self.blocks@[block.0 as int].params@ == before.blocks@[block.0 as int].params@,
            self.blocks@[block.0 as int].insts@ == before.blocks@[block.0 as int].insts@.insert(
                at,
                inst,
            ),
            forall|b: int|
                0 <= b < before.blocks@.len() && b != block.0 ==> #[trigger] self.blocks@[b]
                    == before.blocks@[b],
        ensures
            self.wf(),
    {
        assert forall|v: int| 0 <= v < self.value_defs@.len() implies (
        #[trigger] self.value_defs@[v] matches Some(i) ==> i.0 < self.insts@.len()) by {
            if v < before.value_defs@.len() {
                assert(self.value_defs@[v] == before.value_defs@[v]);
            }
        }
        assert forall|i: int| 0 <= i < self.insts@.len() implies self.inst_wf(
            #[trigger] self.insts@[i],
        ) by {
            if i < before.insts@.len() {
                assert(self.insts@[i] == self.insts@.drop_last()[i]);
                assert(before.inst_wf(before.insts@[i]));
            }
        }
        assert forall|b: int| 0 <= b < self.blocks@.len() implies self.has_values(
            (#[trigger] self.blocks@[b]).params@,
        ) && (forall|k: int|
            0 <= k < self.blocks@[b].insts@.len() ==> (#[trigger] self.blocks@[b].insts@[k]).0
                < self.insts@.len()) by {
            assert(before.has_values(before.blocks@[b].params@));
            assert forall|k: int| 0 <= k < self.blocks@[b].insts@.len() implies (
            #[trigger] self.blocks@[b].insts@[k]).0 < self.insts@.len() by {
                if b != block.0 || k < at {
                    let _ = before.blocks@[b].insts@[k];
                } else if k > at {
                    let _ = before.blocks@[b].insts@[k - 1];
                }
            }
        }
    }

    /// Appends a parameter to a block.
    pub fn append_block_param(&mut self, block: Block, ty: Type) -> (value: Value)
        requires
            old(self).wf(),
            block.0 < old(self).blocks@.len(),
            old(self).value_types@.len() < usize::MAX,
        ensures
            final(self).wf(),
            final(self)@ == old(self)@.with_param(block.0 as int, ty),
            value.0 == old(self).value_types@.len(),
    {
        let value = Value(self.value_types.len());
        self.value_types.push(ty);
        self.value_defs.push(None);
        self.blocks[block.0].params.push(value);
        proof {
            assert(self@ =~= old(self)@.with_param(block.0 as int, ty));
            assert forall|i: int| 0 <= i < self.insts@.len() implies self.inst_wf(
                #[trigger] self.insts@[i],
            ) by {
                assert(old(self).inst_wf(old(self).insts@[i]));
            }
            assert forall|b: int| 0 <= b < self.blocks@.len() implies self.has_values(
                (#[trigger] self.blocks@[b]).params@,
            ) && (forall|k: int|
                0 <= k < self.blocks@[b].insts@.len() ==> (#[trigger] self.blocks@[b].insts@[k]).0
                    < self.insts@.len()) by {
                assert(old(self).has_values(old(self).blocks@[b].params@));
            }
        }
        value
    }
}

} // verus!
