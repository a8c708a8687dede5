//! What building does to a fragment, and what the sample fragments hold.

use vstd::prelude::*;

use crate::fragments;
use crate::fragments::Row;
use crate::ir::{Block, Function, FunctionView, Inst, InstructionData, Opcode, Value};
use crate::state_map::{EntryConstraint, Location};
use crate::types::Type;

verus! {

/// What an instruction does is told by its immediate part, or by its form where
/// only one instruction has it.
pub proof fn lemma_what_instructions_do(data: InstructionData)
    ensures
        data is UnaryImm ==> data.op() == data->UnaryImm_opcode,
        data is NixeBoundary ==> data.op() == data->NixeBoundary_opcode,
        data is Memory ==> data.op() == data->Memory_opcode,
        data is Other ==> data.op() == data->Other_opcode,
        data is UnaryIeee32 ==> data.op() == Opcode::F32const,
        data is UnaryIeee64 ==> data.op() == Opcode::F64const,
        data is UnaryConst ==> data.op() == Opcode::Vconst,
        data is NixeEntry ==> data.op() == Opcode::NixeEntry,
{
}

/// An effect can be observed only in a fragment whose owner observes effects, and
/// there exactly that of a conversion.
pub proof fn lemma_observable_effects(f: Function, inst: Inst)
    ensures
        !f.nixe_observable_fp ==> !f.observable_fp_effect(inst),
        f.nixe_observable_fp ==> (f.observable_fp_effect(inst) <==> f.insts@[inst.0 as int].data.op()
            == Opcode::FcvtFromSint),
{
}

/// Everything that a fragment refers to exists: a fragment is well-formed exactly if
/// every value has a definition or none, and definitions, operands, results, literals,
/// destinations and the instructions of blocks are all there.
pub proof fn lemma_well_formed_fragments(f: Function)
    ensures
        f.wf() <==> {
            let values = f.value_types@.len();
            &&& f.value_defs@.len() == values
            &&& forall|v: int|
                0 <= v < values ==> (#[trigger] f.value_defs@[v] matches Some(inst) ==> inst.0
                    < f.insts@.len())
            &&& forall|i: int, k: int|
                0 <= i < f.insts@.len() && 0 <= k < f.insts@[i].args@.len() ==> (
                #[trigger] f.insts@[i].args@[k]).0 < values
            &&& forall|i: int, k: int|
                0 <= i < f.insts@.len() && 0 <= k < f.insts@[i].results@.len() ==> (
                #[trigger] f.insts@[i].results@[k]).0 < values
            &&& forall|i: int|
                0 <= i < f.insts@.len() ==> ((
                #[trigger] f.insts@[i]).data matches InstructionData::UnaryConst { constant }
                    ==> constant < f.constants@.len())
            &&& forall|i: int, t: int|
                0 <= i < f.insts@.len() && 0 <= t < f.insts@[i].targets@.len() ==> (
                #[trigger] f.insts@[i].targets@[t]).block.0 < f.blocks@.len() && forall|k: int|
                    0 <= k < f.insts@[i].targets@[t].args@.len() ==> (
                    #[trigger] f.insts@[i].targets@[t].args@[k]).0 < values
            &&& forall|b: int, k: int|
                0 <= b < f.blocks@.len() && 0 <= k < f.blocks@[b].params@.len() ==> (
                #[trigger] f.blocks@[b].params@[k]).0 < values
            &&& forall|b: int, k: int|
                0 <= b < f.blocks@.len() && 0 <= k < f.blocks@[b].insts@.len() ==> (
                #[trigger] f.blocks@[b].insts@[k]).0 < f.insts@.len()
        },
{
    if f.wf() {
        assert forall|i: int| 0 <= i < f.insts@.len() implies f.inst_wf(#[trigger] f.insts@[i]) by {}
    }
}

/// The contents of a fragment show all that it holds.
pub proof fn lemma_contents_show_all(f: Function)
    ensures
        f@.insts.len() == f.insts@.len(),
        forall|i: int|
            0 <= i < f.insts@.len() ==> {
                let shown = #[trigger] f@.insts[i];
                let node = f.insts@[i];
                &&& shown.data == node.data && shown.args == node.args@
                &&& shown.results == node.results@
                &&& shown.targets.len() == node.targets@.len()
                &&& forall|t: int|
                    0 <= t < node.targets@.len() ==> #[trigger] shown.targets[t] == (
                        node.targets@[t].block,
                        node.targets@[t].args@,
                    )
            },
        f@.value_types == f.value_types@ && f@.value_defs == f.value_defs@,
        f@.constants.len() == f.constants@.len(),
        forall|c: int|
            0 <= c < f.constants@.len() ==> #[trigger] f@.constants[c] == f.constants@[c]@,
        f@.blocks.len() == f.blocks@.len(),
        forall|b: int|
            0 <= b < f.blocks@.len() ==> {
                let shown = #[trigger] f@.blocks[b];
                &&& shown.params == f.blocks@[b].params@
                &&& shown.insts == f.blocks@[b].insts@
                &&& shown.cold == f.blocks@[b].cold
            },
        f@.stack_slots == f.stack_slots@,
        f@.entry_constraints.dom() == f.nixe_entry_constraints@.dom(),
        forall|id: u64| #[trigger]
            f.nixe_entry_constraints@.contains_key(id) ==> f@.entry_constraints[id]
                == f.nixe_entry_constraints@[id]@,
        f@.exit_compares == f.nixe_exit_compares@ && f@.exit_costs == f.nixe_exit_costs@,
        f@.observable_fp == f.nixe_observable_fp,
{
}

/// An empty fragment has nothing.
pub proof fn lemma_empty_fragment()
    ensures
        ({
            let f = FunctionView::empty();
            &&& f.insts.len() == 0 && f.blocks.len() == 0
            &&& f.value_types.len() == 0 && f.value_defs.len() == 0
            &&& f.constants.len() == 0 && f.stack_slots.len() == 0
            &&& !f.observable_fp
            &&& forall|id: u64|
                !#[trigger] f.entry_constraints.contains_key(id) && !f.exit_compares.contains_key(
                    id,
                ) && !f.exit_costs.contains_key(id)
        }),
{
}

/// Two fragments have the same instructions and values.
pub open spec fn same_code(f: FunctionView, g: FunctionView) -> bool {
    &&& f.insts == g.insts
    &&& f.value_types == g.value_types
    &&& f.value_defs == g.value_defs
}

/// Two fragments have the same literals, stack slots and contracts.
pub open spec fn same_surroundings(f: FunctionView, g: FunctionView) -> bool {
    &&& f.constants == g.constants
    &&& f.stack_slots == g.stack_slots
    &&& f.entry_constraints == g.entry_constraints
    &&& f.exit_compares == g.exit_compares
    &&& f.exit_costs == g.exit_costs
    &&& f.observable_fp == g.observable_fp
}

/// A new block comes last and is empty and not cold.
pub proof fn lemma_new_blocks(f: FunctionView)
    ensures
        same_code(f, f.with_block()),
        same_surroundings(f, f.with_block()),
        f.with_block().blocks.len() == f.blocks.len() + 1,
        f.with_block().blocks.drop_last() == f.blocks,
        f.with_block().blocks.last().params.len() == 0,
        f.with_block().blocks.last().insts.len() == 0,
        !f.with_block().blocks.last().cold,
{
    assert(f.with_block().blocks.drop_last() =~= f.blocks);
}

/// A new parameter is a new value that no instruction defines, and comes last in its
/// block. No other block changes.
pub proof fn lemma_new_parameters(f: FunctionView, block: int, ty: Type)
    requires
        0 <= block < f.blocks.len(),
        f.value_types.len() <= usize::MAX,
        f.value_defs.len() == f.value_types.len(),
    ensures
        ({
            let g = f.with_param(block, ty);
            let value = Value(f.value_types.len() as usize);
            &&& same_surroundings(f, g)
            &&& g.insts == f.insts
            &&& g.value_types.len() == f.value_types.len() + 1
            &&& g.value_types.drop_last() == f.value_types
            &&& g.value_types[value.0 as int] == ty
            &&& g.value_defs.len() == g.value_types.len()
            &&& g.value_defs.drop_last() == f.value_defs
            &&& g.value_defs[value.0 as int] is None
            &&& g.blocks.len() == f.blocks.len()
            &&& g.blocks[block].params.len() == f.blocks[block].params.len() + 1
            &&& g.blocks[block].params.drop_last() == f.blocks[block].params
            &&& g.blocks[block].params.last() == value
            &&& g.blocks[block].insts == f.blocks[block].insts
            &&& g.blocks[block].cold == f.blocks[block].cold
            &&& forall|b: int|
                0 <= b < f.blocks.len() && b != block ==> #[trigger] g.blocks[b] == f.blocks[b]
        }),
{
    let g = f.with_param(block, ty);
    assert(g.value_types.drop_last() =~= f.value_types);
    assert(g.value_defs.drop_last() =~= f.value_defs);
    assert(g.blocks[block].params.drop_last() =~= f.blocks[block].params);
}

/// A new instruction stands at its place of its block, before what was there. Its
/// results are new values, numbered on from those that there are, and it defines
/// them. Nothing else changes: without it, the block is as before.
pub proof fn lemma_new_instructions(
    f: FunctionView,
    block: int,
    at: int,
    data: InstructionData,
    args: Seq<Value>,
    types: Seq<Type>,
    targets: Seq<(Block, Seq<Value>)>,
)
    requires
        0 <= block < f.blocks.len(),
        0 <= at <= f.blocks[block].insts.len(),
        f.insts.len() <= usize::MAX,
        f.value_defs.len() == f.value_types.len(),
        f.value_types.len() + types.len() <= usize::MAX,
    ensures
        ({
            let g = f.with_inst(block, at, data, args, types, targets);
            let inst = Inst(f.insts.len() as usize);
            let old_values = f.value_types.len() as int;
            &&& same_surroundings(f, g)
            &&& g.insts.len() == f.insts.len() + 1
            &&& g.insts.drop_last() == f.insts
            &&& g.insts.last().data == data
            &&& g.insts.last().args == args
            &&& g.insts.last().targets == targets
            &&& g.insts.last().results.len() == types.len()
            &&& g.value_types.len() == old_values + types.len()
            &&& g.value_defs.len() == old_values + types.len()
            &&& forall|v: int|
                0 <= v < old_values ==> #[trigger] g.value_types[v] == f.value_types[v]
                    && g.value_defs[v] == f.value_defs[v]
            &&& forall|r: int|
                0 <= r < types.len() ==> {
                    let value = #[trigger] g.insts.last().results[r];
                    &&& value.0 == old_values + r
                    &&& g.value_types[value.0 as int] == types[r]
                    &&& g.value_defs[value.0 as int] == Some(inst)
                }
            &&& g.blocks.len() == f.blocks.len()
            &&& g.blocks[block].insts.len() == f.blocks[block].insts.len() + 1
            &&& g.blocks[block].insts[at] == inst
            &&& g.blocks[block].insts.remove(at) == f.blocks[block].insts
            &&& g.blocks[block].params == f.blocks[block].params
            &&& g.blocks[block].cold == f.blocks[block].cold
            &&& forall|b: int|
                0 <= b < f.blocks.len() && b != block ==> #[trigger] g.blocks[b] == f.blocks[b]
        }),
{
    let g = f.with_inst(block, at, data, args, types, targets);
    assert(g.insts.drop_last() =~= f.insts);
    assert(g.blocks[block].insts.remove(at) =~= f.blocks[block].insts);
    let old_values = f.value_types.len() as int;
    assert forall|v: int| 0 <= v < old_values implies #[trigger] g.value_types[v]
        == f.value_types[v] && g.value_defs[v] == f.value_defs[v] by {}
}

/// The listing row does what `data` says in the first block, and goes nowhere.
pub open spec fn is_row(row: Row, data: InstructionData, args: Seq<Value>, types: Seq<Type>) -> bool {
    row.block == 0 && row.data == data && row.args == args && row.types == types
        && row.targets.len() == 0
}

/// Inputs are integers and vectors in turn.
pub proof fn lemma_mixed_types(pairs: nat)
    ensures
        fragments::mixed_types(pairs).len() == pairs + pairs,
        forall|i: int|
            0 <= i < pairs ==> fragments::mixed_types(pairs)[2 * i] == Type::I64
                && #[trigger] fragments::mixed_types(pairs)[2 * i + 1] == Type::I8X16,
{
}

/// The fast fragment: an entry with 40 integers and 40 vectors, 40 sums, and an exit
/// that hands over sum number `i` in place of integer number `i`, and the vectors.
pub proof fn lemma_fast_fragment()
    ensures
        ({
            let rows = fragments::fast_rows();
            &&& rows.len() == 42
            &&& is_row(
                rows[0],
                InstructionData::NixeEntry { imm: 1 },
                Seq::empty(),
                fragments::mixed_types(40),
            )
            &&& forall|i: int|
                0 <= i < 40 ==> is_row(
                    #[trigger] rows[1 + i],
                    InstructionData::Other { opcode: Opcode::IaddImm, imm: (i + 1) as i64 },
                    seq![Value((2 * i) as usize)],
                    seq![Type::I64],
                )
            &&& is_row(
                rows[41],
                InstructionData::NixeBoundary { opcode: Opcode::NixeExit, imm: 2 },
                rows[41].args,
                Seq::empty(),
            )
            &&& rows[41].args.len() == 80
            &&& forall|i: int|
                0 <= i < 40 ==> rows[41].args[2 * i].0 == 80 + i && (#[trigger] rows[41].args[2 * i
                    + 1]).0 == 2 * i + 1
        }),
{
    assert forall|i: int| 0 <= i < 40 implies is_row(
        #[trigger] fragments::fast_rows()[1 + i],
        InstructionData::Other { opcode: Opcode::IaddImm, imm: (i + 1) as i64 },
        seq![Value((2 * i) as usize)],
        seq![Type::I64],
    ) by {}
    let args = fragments::fast_rows()[41].args;
    assert(args == fragments::fast_outputs(40));
    assert forall|i: int| 0 <= i < 40 implies args[2 * i].0 == 80 + i && (#[trigger] args[2 * i
        + 1]).0 == 2 * i + 1 by {
        assert((2 * i) % 2 == 0 && (2 * i) / 2 == i && (2 * i + 1) % 2 == 1);
    }
}

/// Four of the first six results of the constrained fragment are asked for in
/// registers, and no other of its 80 results.
pub proof fn lemma_constrained_fragment(i: int)
    requires
        0 <= i < 80,
    ensures
        ({
            let asked = fragments::sample_constraints();
            &&& asked.len() == 80
            &&& asked[i] is Register <==> i == 0 || i == 1 || i == 4 || i == 5
            &&& asked[0] == (EntryConstraint::Register { index: 2, vector: false })
            &&& asked[1] == (EntryConstraint::Register { index: 7, vector: true })
            &&& asked[4] == (EntryConstraint::Register { index: 0, vector: false })
            &&& asked[5] == (EntryConstraint::Register { index: 0, vector: true })
        }),
{
}

/// Row number `3 * i` of the inputs loads integer number `i` from the frame, the next
/// one adds `i + 1` to it, and the one after that loads vector number `i`. What is
/// handed over are the sums and the vectors, in turn.
pub proof fn lemma_inputs(first: int, pairs: nat, i: int)
    requires
        0 <= i < pairs <= 40,
        0 <= first <= 2,
    ensures
        ({
            let rows = fragments::input_rows(first, 3 * pairs);
            let values = fragments::input_values(first, pairs);
            &&& rows.len() == 3 * pairs
            &&& is_row(
                rows[3 * i],
                InstructionData::Memory {
                    opcode: Opcode::Load,
                    offset: (8 * i) as i32,
                    notrap: true,
                },
                seq![Value(0)],
                seq![Type::I64],
            )
            &&& is_row(
                rows[3 * i + 1],
                InstructionData::Other { opcode: Opcode::IaddImm, imm: (i + 1) as i64 },
                seq![Value((first + 3 * i) as usize)],
                seq![Type::I64],
            )
            &&& is_row(
                rows[3 * i + 2],
                InstructionData::Memory {
                    opcode: Opcode::Load,
                    offset: (512 + 16 * i) as i32,
                    notrap: true,
                },
                seq![Value(0)],
                seq![Type::I8X16],
            )
            &&& values.len() == 2 * pairs
            &&& values[2 * i].0 == first + 3 * i + 1
            &&& values[2 * i + 1].0 == first + 3 * i + 2
        }),
{
    assert((3 * i) % 3 == 0 && (3 * i) / 3 == i);
    assert((3 * i + 1) % 3 == 1 && (3 * i + 1) / 3 == i);
    assert((3 * i + 2) % 3 == 2 && (3 * i + 2) / 3 == i);
    assert((2 * i) % 2 == 0 && (2 * i) / 2 == i && (2 * i + 1) % 2 == 1 && (2 * i + 1) / 2 == i);
}

/// The frame pointer is the first value of a fragment that reads its frame.
pub open spec fn is_frame_row(row: Row) -> bool {
    is_row(
        row,
        InstructionData::Other { opcode: Opcode::GetPinnedReg, imm: 0 },
        Seq::empty(),
        seq![Type::I64],
    )
}

/// The source fragment: the frame pointer, three pairs of inputs, and an exit.
pub proof fn lemma_source()
    ensures
        ({
            let rows = fragments::source_rows();
            &&& rows.len() == 11
            &&& is_frame_row(rows[0])
            &&& rows.subrange(1, 10) == fragments::input_rows(1, 9)
            &&& is_row(
                rows[10],
                InstructionData::NixeBoundary { opcode: Opcode::NixeExit, imm: 10 },
                fragments::input_values(1, 3),
                Seq::empty(),
            )
        }),
{
    assert(fragments::source_rows().subrange(1, 10) =~= fragments::input_rows(1, 9));
}

/// The two-block fragment: the address of its slot is stored in the frame, 40 pairs of
/// inputs are observed and, in the second block, handed over with the first sum
/// repeated at the end. Its slot has 48 bytes, and its second block is cold or not.
pub proof fn lemma_two_block_fragment(cold: bool)
    ensures
        ({
            let rows = fragments::fragment_rows();
            let inputs = fragments::input_values(2, 40);
            &&& rows.len() == 126
            &&& is_frame_row(rows[0])
            &&& is_row(
                rows[1],
                InstructionData::Other { opcode: Opcode::StackAddr, imm: 0 },
                Seq::empty(),
                seq![Type::I64],
            )
            &&& is_row(
                rows[2],
                InstructionData::Memory { opcode: Opcode::Store, offset: 1504, notrap: true },
                seq![Value(1), Value(0)],
                Seq::empty(),
            )
            &&& rows.subrange(3, 123) == fragments::input_rows(2, 120)
            &&& is_row(
                rows[123],
                InstructionData::NixeBoundary { opcode: Opcode::NixeState, imm: 10 },
                inputs,
                Seq::empty(),
            )
            &&& rows[124].block == 0 && rows[124].data.op() == Opcode::Jump
            &&& rows[124].data is Other && rows[124].data->Other_imm == 0
            &&& rows[124].args.len() == 0 && rows[124].types.len() == 0
            &&& rows[124].targets == seq![(Block(1), Seq::<Value>::empty())]
            &&& rows[125].block == 1 && rows[125].types.len() == 0 && rows[125].targets.len() == 0
            &&& rows[125].data == (InstructionData::NixeBoundary {
                opcode: Opcode::NixeExit,
                imm: 20,
            })
            &&& rows[125].args.len() == 81
            &&& rows[125].args.drop_last() == inputs
            &&& rows[125].args[80] == rows[125].args[0]
        }),
        ({
            let f = fragments::fragment_view(cold);
            let listed = fragments::assembled(2, fragments::fragment_rows());
            &&& same_code(f, listed)
            &&& f.stack_slots == seq![48u32]
            &&& f.blocks[0] == listed.blocks[0]
            &&& f.blocks[1].insts == listed.blocks[1].insts
            &&& f.blocks[1].params == listed.blocks[1].params
            &&& f.blocks[1].cold == cold
            &&& f.blocks.len() == 2
        }),
{
    let rows = fragments::fragment_rows();
    assert(rows.subrange(3, 123) =~= fragments::input_rows(2, 120));
    assert(rows[125].args.drop_last() =~= fragments::input_values(2, 40));
    assert(fragments::in_blocks(2, rows)) by {
        assert forall|i: int| 0 <= i < rows.len() implies 0 <= (#[trigger] rows[i]).block < 2 by {
            if 3 <= i < 123 {
                assert(rows[i] == fragments::input_rows(2, 120)[i - 3]);
            }
        }
    }
    fragments::lemma_listing(2, rows);
    let listed = fragments::assembled(2, rows);
    assert(listed.blocks.len() == 2);
}

/// The old state of the fault fragment: integer number `i`, then vector number `i`.
pub proof fn lemma_old_state(i: int)
    requires
        0 <= i < 40,
    ensures
        ({
            let rows = fragments::state_rows(80);
            &&& rows.len() == 80
            &&& is_row(
                rows[2 * i],
                InstructionData::Memory {
                    opcode: Opcode::Load,
                    offset: (8 * i) as i32,
                    notrap: true,
                },
                seq![Value(0)],
                seq![Type::I64],
            )
            &&& is_row(
                rows[2 * i + 1],
                InstructionData::Memory {
                    opcode: Opcode::Load,
                    offset: (512 + 16 * i) as i32,
                    notrap: true,
                },
                seq![Value(0)],
                seq![Type::I8X16],
            )
        }),
{
    assert((2 * i) % 2 == 0 && (2 * i) / 2 == i && (2 * i + 1) % 2 == 1 && (2 * i + 1) / 2 == i);
}

/// A memory operation of the fault fragment may trap.
pub open spec fn may_trap(opcode: Opcode) -> InstructionData {
    InstructionData::Memory { opcode, offset: 0, notrap: false }
}

/// The fault fragment: the old state, an address, a span that keeps all of the old
/// state alive, the operations that may trap, its end, and an exit with what the
/// first operation gave.
pub proof fn lemma_fault_fragment(operation: u8)
    ensures
        ({
            let rows = fragments::fault_rows(operation);
            let accesses = fragments::fault_operations(operation);
            let n = accesses.len() as int;
            let (address, value) = (Value(81), Value(82));
            &&& rows.len() == 85 + n
            &&& is_frame_row(rows[0])
            &&& rows.subrange(1, 81) == fragments::state_rows(80)
            &&& is_row(
                rows[81],
                InstructionData::Memory { opcode: Opcode::Load, offset: 1504, notrap: true },
                seq![Value(0)],
                seq![Type::I64],
            )
            &&& is_row(
                rows[82],
                InstructionData::NixeBoundary { opcode: Opcode::NixeFaultStart, imm: 30 },
                rows[82].args,
                Seq::empty(),
            )
            &&& rows[82].args.len() == 80
            &&& forall|i: int| 0 <= i < 80 ==> (#[trigger] rows[82].args[i]).0 == i + 1
            &&& rows.subrange(83, 83 + n) == accesses
            &&& is_row(
                rows[83 + n],
                InstructionData::NixeBoundary { opcode: Opcode::NixeFaultEnd, imm: 30 },
                Seq::empty(),
                Seq::empty(),
            )
            &&& is_row(
                rows[84 + n],
                InstructionData::NixeBoundary { opcode: Opcode::NixeExit, imm: 40 },
                seq![value],
                Seq::empty(),
            )
            &&& operation == 1 ==> n == 1 && is_row(
                accesses[0],
                may_trap(Opcode::AtomicXor),
                seq![address, Value(1)],
                seq![Type::I64],
            )
            &&& operation != 1 ==> is_row(
                accesses[0],
                may_trap(Opcode::Load),
                seq![address],
                seq![Type::I64],
            )
            &&& operation != 1 && operation != 2 ==> n == 1
            &&& operation == 2 ==> n == 3 && is_row(
                accesses[1],
                InstructionData::Other { opcode: Opcode::Iadd, imm: 0 },
                seq![value, Value(1)],
                seq![Type::I64],
            ) && is_row(
                accesses[2],
                may_trap(Opcode::Store),
                seq![Value(83), address],
                Seq::empty(),
            )
        }),
{
    let rows = fragments::fault_rows(operation);
    let accesses = fragments::fault_operations(operation);
    let n = accesses.len() as int;
    assert(rows.subrange(1, 81) =~= fragments::state_rows(80));
    assert(rows.subrange(83, 83 + n) =~= accesses);
}

/// The destination fragment: an entry with three pairs, a store of each result to the
/// frame, integers and vectors apart, and an exit without values. Its results are
/// asked for where the values are.
pub proof fn lemma_destination(locations: Seq<Location>)
    ensures
        ({
            let rows = fragments::destination_rows();
            &&& rows.len() == 9
            &&& is_row(
                rows[0],
                InstructionData::NixeEntry { imm: 20 },
                Seq::empty(),
                fragments::mixed_types(3),
            )
            &&& is_frame_row(rows[1])
            &&& forall|r: int|
                0 <= r < 6 ==> is_row(
                    #[trigger] rows[2 + r],
                    InstructionData::Memory {
                        opcode: Opcode::Store,
                        offset: if r % 2 == 0 {
                            (128 + 4 * r) as i32
                        } else {
                            (1016 + 8 * r) as i32
                        },
                        notrap: true,
                    },
                    seq![Value(r as usize), Value(6)],
                    Seq::empty(),
                )
            &&& is_row(
                rows[8],
                InstructionData::NixeBoundary { opcode: Opcode::NixeExit, imm: 30 },
                Seq::empty(),
                Seq::empty(),
            )
        }),
        fragments::ingress(locations).len() == locations.len(),
        forall|i: int|
            0 <= i < locations.len() ==> match #[trigger] locations[i] {
                Location::Register { index, vector } => fragments::ingress(locations)[i] == (
                EntryConstraint::Register { index, vector }),
                _ => fragments::ingress(locations)[i] == EntryConstraint::Any,
            },
{
    assert forall|r: int| 0 <= r < 6 implies is_row(
        #[trigger] fragments::destination_rows()[2 + r],
        InstructionData::Memory {
            opcode: Opcode::Store,
            offset: if r % 2 == 0 {
                (128 + 4 * r) as i32
            } else {
                (1016 + 8 * r) as i32
            },
            notrap: true,
        },
        seq![Value(r as usize), Value(6)],
        Seq::empty(),
    ) by {
        assert(fragments::destination_rows()[2 + r] == fragments::store_rows(6)[r]);
        assert(r % 2 == 0 ==> 8 * (r / 2) == 4 * r);
        assert(r % 2 == 1 ==> 16 * (r / 2) == 8 * r - 8);
    }
}

/// The conversions: one integer is converted twice, with a state between, and nothing
/// is handed over at the exit.
pub proof fn lemma_conversions()
    ensures
        ({
            let rows = fragments::conversion_rows();
            &&& rows.len() == 5
            &&& is_row(
                rows[0],
                InstructionData::UnaryImm { opcode: Opcode::Iconst, imm: 0x100_0001 },
                Seq::empty(),
                seq![Type::I64],
            )
            &&& forall|i: int|
                i == 1 || i == 3 ==> is_row(
                    #[trigger] rows[i],
                    InstructionData::Other { opcode: Opcode::FcvtFromSint, imm: 0 },
                    seq![Value(0)],
                    seq![Type::F32],
                )
            &&& is_row(
                rows[2],
                InstructionData::NixeBoundary { opcode: Opcode::NixeState, imm: 1 },
                Seq::empty(),
                Seq::empty(),
            )
            &&& is_row(
                rows[4],
                InstructionData::NixeBoundary { opcode: Opcode::NixeExit, imm: 2 },
                Seq::empty(),
                Seq::empty(),
            )
        }),
        fragments::COUNT == 40,
{
}

} // verus!
