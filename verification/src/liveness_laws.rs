//! What removing dead code keeps, and what it takes away.

use vstd::prelude::*;

use crate::dead_code;
use crate::ir::{BlockView, FunctionView, InstView, InstructionData, Opcode, Value};
use crate::rule_laws;
use crate::validate;

verus! {

/// The immediate of the integer literal that defines a value.
pub open spec fn literal_of(f: FunctionView, value: Value) -> Option<i64> {
    match f.value_defs[value.0 as int] {
        Some(definition) => match f.insts[definition.0 as int].data {
            InstructionData::UnaryImm { opcode: Opcode::Iconst, imm } => Some(imm),
            _ => None,
        },
        None => None,
    }
}

/// A condition is known exactly if it is an integer literal of at most 64 bits, and
/// is false exactly if all bits of its type are zero.
pub proof fn lemma_known_conditions(f: FunctionView, condition: Value)
    ensures
        ({
            let width = f.value_types[condition.0 as int].width();
            let known = dead_code::decided(f, condition);
            &&& known is Some <==> literal_of(f, condition) is Some && width <= 64
            &&& known matches Some(truth) ==> {
                let imm = literal_of(f, condition)->Some_0 as int;
                &&& width == 8 ==> (truth <==> imm % 0x100 != 0)
                &&& width == 16 ==> (truth <==> imm % 0x1_0000 != 0)
                &&& width == 32 ==> (truth <==> imm % 0x1_0000_0000 != 0)
                &&& width == 64 ==> (truth <==> imm != 0)
            }
        }),
{
}

/// A conditional branch on a known condition becomes a jump to the destination that
/// it always takes, the first one if the condition is true. It keeps its results.
/// Nothing else changes.
pub proof fn lemma_folded_branches(f: FunctionView, inst: InstView)
    ensures
        ({
            let after = dead_code::folded(f, inst);
            if inst.data is Other && inst.data.op() == Opcode::Brif && inst.args.len() == 1
                && inst.targets.len() == 2 && dead_code::decided(f, inst.args[0]) is Some {
                &&& after.data is Other && after.data.op() == Opcode::Jump
                &&& after.data->Other_imm == 0
                &&& after.args.len() == 0
                &&& after.results == inst.results
                &&& after.targets.len() == 1
                &&& dead_code::decided(f, inst.args[0]) == Some(true) ==> after.targets[0]
                    == inst.targets[0]
                &&& dead_code::decided(f, inst.args[0]) == Some(false) ==> after.targets[0]
                    == inst.targets[1]
            } else {
                after == inst
            }
        }),
{
}

/// Control can go from a block to another exactly if an instruction of the first
/// one names the other as a destination, and can come from outside exactly to the
/// first block and to those with an entry.
pub proof fn lemma_ways_of_control(
    insts: Seq<InstView>,
    blocks: Seq<BlockView>,
    from: int,
    to: int,
)
    ensures
        dead_code::leads(insts, blocks, from, to) <==> exists|k: int, t: int|
            0 <= k < blocks[from].insts.len() && 0 <= t < insts[(
            #[trigger] blocks[from].insts[k]).0 as int].targets.len() && (
            #[trigger] insts[blocks[from].insts[k].0 as int].targets[t]).0.0 == to,
        dead_code::is_root(insts, blocks, to) <==> to == 0 || exists|k: int|
            0 <= k < blocks[to].insts.len() && insts[(
            #[trigger] blocks[to].insts[k]).0 as int].data is NixeEntry,
{
}

/// The set holds every block that control can come to from outside, and with each
/// block all that it leads to.
pub open spec fn closed_set(
    insts: Seq<InstView>,
    blocks: Seq<BlockView>,
    set: spec_fn(int) -> bool,
) -> bool {
    &&& forall|b: int|
        0 <= b < blocks.len() && dead_code::is_root(insts, blocks, b) ==> #[trigger] set(b)
    &&& forall|b: int, c: int|
        0 <= b < blocks.len() && 0 <= c < blocks.len() && (#[trigger] set(b)) && dead_code::leads(
            insts,
            blocks,
            b,
            c,
        ) ==> #[trigger] set(c)
}

/// The blocks that can be reached are a closed set.
pub proof fn lemma_reachable_is_closed(insts: Seq<InstView>, blocks: Seq<BlockView>)
    ensures
        closed_set(insts, blocks, |b: int| dead_code::reachable(insts, blocks, b)),
{
    let set = |b: int| dead_code::reachable(insts, blocks, b);
    assert forall|b: int|
        0 <= b < blocks.len() && dead_code::is_root(insts, blocks, b) implies #[trigger] set(b) by {
        assert(dead_code::is_path(insts, blocks, seq![b]));
        assert(seq![b].last() == b);
    }
    assert forall|b: int, c: int|
        0 <= b < blocks.len() && 0 <= c < blocks.len() && (#[trigger] set(b)) && dead_code::leads(
            insts,
            blocks,
            b,
            c,
        ) implies #[trigger] set(c) by {
        let path = choose|path: Seq<int>| #[trigger]
            dead_code::is_path(insts, blocks, path) && path.last() == b;
        let longer = path.push(c);
        assert(dead_code::is_path(insts, blocks, longer)) by {
            assert forall|i: int, j: int|
                0 <= i < longer.len() - 1 && j == i + 1 implies dead_code::leads(
                insts,
                blocks,
                #[trigger] longer[i],
                #[trigger] longer[j],
            ) by {
                if j < path.len() {
                    assert(dead_code::leads(insts, blocks, path[i], path[j]));
                }
            }
        }
        assert(longer.last() == c);
    }
}

proof fn lemma_path_in_closed_set(
    insts: Seq<InstView>,
    blocks: Seq<BlockView>,
    set: spec_fn(int) -> bool,
    path: Seq<int>,
    i: int,
)
    requires
        closed_set(insts, blocks, set),
        dead_code::is_path(insts, blocks, path),
        0 <= i < path.len(),
    ensures
        set(path[i]),
    decreases i,
{
    if i > 0 {
        lemma_path_in_closed_set(insts, blocks, set, path, i - 1);
        assert(dead_code::leads(insts, blocks, path[i - 1], path[i]));
    }
}

/// No closed set is without a block that can be reached: together with the above,
/// the blocks that can be reached are the smallest closed set.
pub proof fn lemma_reachable_is_least(
    insts: Seq<InstView>,
    blocks: Seq<BlockView>,
    set: spec_fn(int) -> bool,
    b: int,
)
    requires
        closed_set(insts, blocks, set),
        dead_code::reachable(insts, blocks, b),
    ensures
        set(b),
        0 <= b < blocks.len(),
{
    let path = choose|path: Seq<int>| #[trigger]
        dead_code::is_path(insts, blocks, path) && path.last() == b;
    lemma_path_in_closed_set(insts, blocks, set, path, path.len() - 1);
}

/// A block that can be reached holds the exit with an identity.
pub open spec fn leaves_through(f: FunctionView, insts: Seq<InstView>, id: u64) -> bool {
    exists|b: int, k: int|
        0 <= b < f.blocks.len() && dead_code::reachable(insts, f.blocks, b) && 0 <= k
            < f.blocks[b].insts.len() && rule_laws::names(
            insts[(#[trigger] f.blocks[b].insts[k]).0 as int].data,
            id,
            false,
        )
}

/// What is left of a fragment. Every instruction is the folded one. A block that can
/// be reached keeps its instructions and any other has none, and all keep the rest.
/// A comparison or a cost stays, as it was, exactly if its exit is in a block that
/// can be reached. Values, literals, stack slots and constraints stay.
pub proof fn lemma_what_is_left(f: FunctionView)
    ensures
        ({
            let left = dead_code::live_code(f);
            let insts = left.insts;
            &&& insts.len() == f.insts.len()
            &&& forall|i: int|
                0 <= i < f.insts.len() ==> #[trigger] insts[i] == dead_code::folded(f, f.insts[i])
            &&& left.blocks.len() == f.blocks.len()
            &&& forall|b: int|
                0 <= b < f.blocks.len() ==> (#[trigger] left.blocks[b]).params == f.blocks[b].params
                    && left.blocks[b].cold == f.blocks[b].cold
            &&& forall|b: int|
                0 <= b < f.blocks.len() && dead_code::reachable(insts, f.blocks, b)
                    ==> (#[trigger] left.blocks[b]).insts == f.blocks[b].insts
            &&& forall|b: int|
                0 <= b < f.blocks.len() && !dead_code::reachable(insts, f.blocks, b)
                    ==> (#[trigger] left.blocks[b]).insts.len() == 0
            &&& left.value_types == f.value_types && left.value_defs == f.value_defs
            &&& left.constants == f.constants && left.stack_slots == f.stack_slots
            &&& left.entry_constraints == f.entry_constraints
            &&& left.observable_fp == f.observable_fp
            &&& forall|id: u64| #[trigger]
                left.exit_compares.contains_key(id) <==> f.exit_compares.contains_key(id)
                    && leaves_through(f, insts, id)
            &&& forall|id: u64| #[trigger]
                left.exit_compares.contains_key(id) ==> left.exit_compares[id]
                    == f.exit_compares[id]
            &&& forall|id: u64| #[trigger]
                left.exit_costs.contains_key(id) <==> f.exit_costs.contains_key(id)
                    && leaves_through(f, insts, id)
            &&& forall|id: u64| #[trigger]
                left.exit_costs.contains_key(id) ==> left.exit_costs[id] == f.exit_costs[id]
        }),
{
    let left = dead_code::live_code(f);
    let insts = left.insts;
    let ids = dead_code::exit_ids(insts, left.blocks);
    assert forall|id: u64| #[trigger] ids.contains(id) <==> leaves_through(f, insts, id) by {
        if ids.contains(id) {
            let b = choose|b: int|
                0 <= b < left.blocks.len() && #[trigger] dead_code::exits_from(
                    insts,
                    left.blocks,
                    b,
                    id,
                );
            let k = choose|k: int|
                0 <= k < left.blocks[b].insts.len() && validate::is_named(
                    insts[(#[trigger] left.blocks[b].insts[k]).0 as int].data,
                    id,
                    false,
                );
            rule_laws::lemma_named_exits(insts[left.blocks[b].insts[k].0 as int].data, id);
            assert(f.blocks[b].insts[k] == left.blocks[b].insts[k]);
        }
        if leaves_through(f, insts, id) {
            let (b, k) = choose|b: int, k: int|
                0 <= b < f.blocks.len() && dead_code::reachable(insts, f.blocks, b) && 0 <= k
                    < f.blocks[b].insts.len() && rule_laws::names(
                    insts[(#[trigger] f.blocks[b].insts[k]).0 as int].data,
                    id,
                    false,
                );
            rule_laws::lemma_named_exits(insts[f.blocks[b].insts[k].0 as int].data, id);
            assert(left.blocks[b].insts[k] == f.blocks[b].insts[k]);
            assert(dead_code::exits_from(insts, left.blocks, b, id));
        }
    }
}

} // verus!
