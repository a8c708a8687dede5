//! Removing what cannot run, and the contracts of the exits that go with it.

use std::collections::BTreeMap;

use vstd::prelude::*;

use crate::ir;
use crate::ir::{imm_bits, BlockView, Function, FunctionView, Inst, InstView, InstructionData};
use crate::ir::{Opcode, Value};
use crate::isa::{TargetIsa, MAX_COST};
use crate::lower;
use crate::validate;
use crate::validate::{find_named, flatten, keys_of, Violation};

verus! {

broadcast use vstd::std_specs::btree::group_btree_axioms;

/// The truth of a condition that an integer literal defines.
pub open spec fn decided(f: FunctionView, condition: Value) -> Option<bool> {
    match f.value_defs[condition.0 as int] {
        None => None,
        Some(definition) => match f.insts[definition.0 as int].data {
            InstructionData::UnaryImm { opcode: Opcode::Iconst, imm } => {
                let width = f.value_types[condition.0 as int].width();
                if width <= 64 {
                    Some(lower::low_bits(imm, width) != 0)
                } else {
                    None
                }
            },
            _ => None,
        },
    }
}

/// The destination that a conditional branch always takes, if that is known.
pub open spec fn taken(f: FunctionView, inst: InstView) -> Option<int> {
    match inst.data {
        InstructionData::Other { opcode: Opcode::Brif, .. } => if inst.args.len() == 1
            && inst.targets.len() == 2 {
            match decided(f, inst.args[0]) {
                Some(true) => Some(0),
                Some(false) => Some(1),
                None => None,
            }
        } else {
            None
        },
        _ => None,
    }
}

/// The instruction, or the jump that it always amounts to.
pub open spec fn folded(f: FunctionView, inst: InstView) -> InstView {
    match taken(f, inst) {
        Some(t) => InstView {
            data: InstructionData::Other { opcode: Opcode::Jump, imm: 0 },
            args: Seq::empty(),
            targets: seq![inst.targets[t]],
            ..inst
        },
        None => inst,
    }
}

fn decide(f: &Function, condition: Value) -> (truth: Option<bool>)
    requires
        f.wf(),
        condition.0 < f.value_types@.len(),
    ensures
        truth == decided(f@, condition),
{
    match f.value_defs[condition.0] {
        None => None,
        Some(definition) => {
            assert(f@.insts[definition.0 as int] == f.insts@[definition.0 as int]@);
            match f.insts[definition.0].data {
                InstructionData::UnaryImm { opcode: Opcode::Iconst, imm } => {
                    let width = f.value_types[condition.0].bits();
                    let word = imm_bits(imm);
                    if width == 8 {
                        Some(word % 0x100 != 0)
                    } else if width == 16 {
                        Some(word % 0x1_0000 != 0)
                    } else if width == 32 {
                        Some(word % 0x1_0000_0000 != 0)
                    } else if width == 64 {
                        Some(word != 0)
                    } else {
                        None
                    }
                },
                _ => None,
            }
        },
    }
}

fn decide_branch(f: &Function, inst: usize) -> (destination: Option<usize>)
    requires
        f.wf(),
        inst < f.insts@.len(),
    ensures
        match destination {
            Some(t) => taken(f@, f@.insts[inst as int]) == Some(t as int) && t < 2,
            None => taken(f@, f@.insts[inst as int]) is None,
        },
{
    assert(f.inst_wf(f.insts@[inst as int]));
    assert(f@.insts[inst as int] == f.insts@[inst as int]@);
    match f.insts[inst].data {
        InstructionData::Other { opcode: Opcode::Brif, .. } => {
            if f.insts[inst].args.len() == 1 && f.insts[inst].targets.len() == 2 {
                match decide(f, f.insts[inst].args[0]) {
                    Some(true) => Some(0),
                    Some(false) => Some(1),
                    None => None,
                }
            } else {
                None
            }
        },
        _ => None,
    }
}

fn decide_branches(f: &Function) -> (destinations: Vec<Option<usize>>)
    requires
        f.wf(),
    ensures
        destinations@.len() == f.insts@.len(),
        forall|i: int|
            0 <= i < f.insts@.len() ==> match #[trigger] destinations@[i] {
                Some(t) => taken(f@, f@.insts[i]) == Some(t as int) && t < 2,
                None => taken(f@, f@.insts[i]) is None,
            },
{
    let mut destinations: Vec<Option<usize>> = Vec::new();
    let count: usize = f.insts.len();
    let mut i: usize = 0;
    while i < count
        invariant
            i <= count,
            count == f.insts@.len(),
            f.wf(),
            destinations@.len() == i,
            forall|j: int|
                0 <= j < i ==> match #[trigger] destinations@[j] {
                    Some(t) => taken(f@, f@.insts[j]) == Some(t as int) && t < 2,
                    None => taken(f@, f@.insts[j]) is None,
                },
        decreases count - i,
    {
        destinations.push(decide_branch(f, i));
        i = i + 1;
    }
    destinations
}

/// Turns every branch that always takes the same destination into a jump.
fn fold_branches(f: &mut Function)
    requires
        old(f).wf(),
    ensures
        final(f).wf(),
        final(f)@ == (FunctionView {
            insts: old(f)@.insts.map_values(|inst: InstView| folded(old(f)@, inst)),
            ..old(f)@
        }),
{
    let destinations = decide_branches(f);
    let ghost before = *f;
    let count: usize = f.insts.len();
    let mut i: usize = 0;
    while i < count
        invariant
            i <= count,
            count == before.insts@.len(),
            before.wf(),
            f.wf(),
            f.insts@.len() == count,
            f.value_types == before.value_types,
            f.value_defs == before.value_defs,
            f.constants == before.constants,
            f.blocks == before.blocks,
            f.stack_slots == before.stack_slots,
            f.nixe_entry_constraints == before.nixe_entry_constraints,
            f.nixe_exit_compares == before.nixe_exit_compares,
            f.nixe_exit_costs == before.nixe_exit_costs,
            f.nixe_observable_fp == before.nixe_observable_fp,
            destinations@.len() == count,
            forall|j: int|
                0 <= j < count ==> match #[trigger] destinations@[j] {
                    Some(t) => taken(before@, before@.insts[j]) == Some(t as int) && t < 2,
                    None => taken(before@, before@.insts[j]) is None,
                },
            forall|j: int|
                0 <= j < i ==> (#[trigger] f.insts@[j])@ == folded(before@, before@.insts[j]),
            forall|j: int| i <= j < count ==> #[trigger] f.insts@[j] == before.insts@[j],
        decreases count - i,
    {
        let ghost now = *f;
        if let Some(t) = destinations[i] {
            fold_one(f, i, t);
            proof {
                assert(now.insts@[i as int] == before.insts@[i as int]);
                assert(before@.insts[i as int] == before.insts@[i as int]@);
                assert(f.insts@[i as int]@ == folded(before@, before@.insts[i as int]));
            }
        } else {
            assert(before@.insts[i as int] == before.insts@[i as int]@);
        }
        i = i + 1;
    }
    assert(f@.insts =~= before@.insts.map_values(|inst: InstView| folded(before@, inst)));
}

/// Makes a branch with two destinations a jump to one of them.
fn fold_one(f: &mut Function, inst: usize, t: usize)
    requires
        old(f).wf(),
        inst < old(f).insts@.len(),
        old(f).insts@[inst as int].targets@.len() == 2,
        t < 2,
    ensures
        final(f).wf(),
        final(f).insts@.len() == old(f).insts@.len(),
        forall|j: int|
            0 <= j < old(f).insts@.len() && j != inst ==> #[trigger] final(f).insts@[j] == old(
                f,
            ).insts@[j],
        ({
            let node = old(f).insts@[inst as int]@;
            final(f).insts@[inst as int]@ == (InstView {
                data: InstructionData::Other { opcode: Opcode::Jump, imm: 0 },
                args: Seq::empty(),
                targets: seq![node.targets[t as int]],
                ..node
            })
        }),
        final(f).value_types == old(f).value_types,
        final(f).value_defs == old(f).value_defs,
        final(f).constants == old(f).constants,
        final(f).blocks == old(f).blocks,
        final(f).stack_slots == old(f).stack_slots,
        final(f).nixe_entry_constraints == old(f).nixe_entry_constraints,
        final(f).nixe_exit_compares == old(f).nixe_exit_compares,
        final(f).nixe_exit_costs == old(f).nixe_exit_costs,
        final(f).nixe_observable_fp == old(f).nixe_observable_fp,
{
    let ghost before = *f;
    f.insts[inst].targets.remove(1 - t);
    f.insts[inst].args.clear();
    f.insts[inst].data = InstructionData::Other { opcode: Opcode::Jump, imm: 0 };
    proof {
        let node = f.insts@[inst as int];
        let was = before.insts@[inst as int];
        assert(node.targets@ =~= seq![was.targets@[t as int]]);
        assert(node@.targets =~= seq![was@.targets[t as int]]);
        assert(node@.args =~= Seq::empty());
        assert(before.inst_wf(was));
        assert(was.targets@[t as int].block.0 < before.blocks@.len());
        assert(f.inst_wf(node));
        assert forall|i: int| 0 <= i < f.insts@.len() implies f.inst_wf(#[trigger] f.insts@[i]) by {
            if i != inst {
                assert(before.inst_wf(before.insts@[i]));
            }
        }
    }
}

/// Control can go from one block to another.
pub open spec fn leads(
    insts: Seq<InstView>,
    blocks: Seq<BlockView>,
    from: int,
    to: int,
) -> bool {
    exists|k: int, t: int|
        0 <= k < blocks[from].insts.len() && 0 <= t < insts[(
        #[trigger] blocks[from].insts[k]).0 as int].targets.len() && (
        #[trigger] insts[blocks[from].insts[k].0 as int].targets[t]).0.0 == to
}

/// Control can come to the block from outside: it is the first one, or it holds
/// an entry.
pub open spec fn is_root(insts: Seq<InstView>, blocks: Seq<BlockView>, b: int) -> bool {
    b == 0 || exists|k: int|
        0 <= k < blocks[b].insts.len() && insts[(
        #[trigger] blocks[b].insts[k]).0 as int].data is NixeEntry
}

/// Control can go through the blocks of the path.
pub open spec fn is_path(insts: Seq<InstView>, blocks: Seq<BlockView>, path: Seq<int>) -> bool {
    &&& path.len() > 0
    &&& forall|i: int| 0 <= i < path.len() ==> 0 <= #[trigger] path[i] < blocks.len()
    &&& is_root(insts, blocks, path[0])
    &&& forall|i: int, j: int|
        0 <= i < path.len() - 1 && j == i + 1 ==> leads(
            insts,
            blocks,
            #[trigger] path[i],
            #[trigger] path[j],
        )
}

/// Control can come to the block.
pub open spec fn reachable(insts: Seq<InstView>, blocks: Seq<BlockView>, b: int) -> bool {
    exists|path: Seq<int>| #[trigger] is_path(insts, blocks, path) && path.last() == b
}

proof fn lemma_roots_are_reachable(insts: Seq<InstView>, blocks: Seq<BlockView>, b: int)
    requires
        0 <= b < blocks.len(),
        is_root(insts, blocks, b),
    ensures
        reachable(insts, blocks, b),
{
    assert(is_path(insts, blocks, seq![b]));
}

proof fn lemma_reachable_leads(insts: Seq<InstView>, blocks: Seq<BlockView>, b: int, c: int)
    requires
        reachable(insts, blocks, b),
        leads(insts, blocks, b, c),
        0 <= c < blocks.len(),
    ensures
        reachable(insts, blocks, c),
{
    let path = choose|path: Seq<int>| #[trigger]
        is_path(insts, blocks, path) && path.last() == b;
    let longer = path.push(c);
    assert(is_path(insts, blocks, longer)) by {
        assert forall|i: int, j: int|
            0 <= i < longer.len() - 1 && j == i + 1 implies leads(
            insts,
            blocks,
            #[trigger] longer[i],
            #[trigger] longer[j],
        ) by {
            if j < path.len() {
                assert(leads(insts, blocks, path[i], path[j]));
            }
        }
    }
}

/// What holds of all roots and goes from block to block holds of all that can be
/// reached.
proof fn lemma_closed_covers_reachable(
    insts: Seq<InstView>,
    blocks: Seq<BlockView>,
    seen: Seq<bool>,
    path: Seq<int>,
    i: int,
)
    requires
        seen.len() == blocks.len(),
        forall|b: int| 0 <= b < blocks.len() && is_root(insts, blocks, b) ==> #[trigger] seen[b],
        forall|b: int, c: int|
            0 <= b < blocks.len() && 0 <= c < blocks.len() && (#[trigger] seen[b]) && leads(
                insts,
                blocks,
                b,
                c,
            ) ==> #[trigger] seen[c],
        is_path(insts, blocks, path),
        0 <= i < path.len(),
    ensures
        seen[path[i]],
    decreases i,
{
    if i > 0 {
        lemma_closed_covers_reachable(insts, blocks, seen, path, i - 1);
        assert(leads(insts, blocks, path[i - 1], path[i]));
    }
}

/// How many blocks were not seen yet.
spec fn unseen(seen: Seq<bool>) -> nat
    decreases seen.len(),
{
    if seen.len() == 0 {
        0
    } else {
        unseen(seen.drop_last()) + (if seen.last() {
            0nat
        } else {
            1
        })
    }
}

proof fn lemma_seeing_one_more(seen: Seq<bool>, c: int)
    requires
        0 <= c < seen.len(),
        !seen[c],
    ensures
        unseen(seen.update(c, true)) < unseen(seen),
    decreases seen.len(),
{
    if c == seen.len() - 1 {
        assert(seen.update(c, true).drop_last() =~= seen.drop_last());
    } else {
        assert(seen.update(c, true).drop_last() =~= seen.drop_last().update(c, true));
        lemma_seeing_one_more(seen.drop_last(), c);
    }
}

/// A destination of the instruction that was not seen yet.
fn unseen_target(f: &Function, seen: &Vec<bool>, inst: usize) -> (found: Option<usize>)
    requires
        f.wf(),
        seen@.len() == f.blocks@.len(),
        inst < f.insts@.len(),
    ensures
        match found {
            Some(c) => c < seen@.len() && !seen@[c as int] && exists|t: int|
                0 <= t < f@.insts[inst as int].targets.len() && (
                #[trigger] f@.insts[inst as int].targets[t]).0.0 == c,
            None => forall|t: int|
                0 <= t < f@.insts[inst as int].targets.len() ==> seen@[(
                #[trigger] f@.insts[inst as int].targets[t]).0.0 as int],
        },
{
    assert(f.inst_wf(f.insts@[inst as int]));
    assert(f@.insts[inst as int] == f.insts@[inst as int]@);
    let count: usize = f.insts[inst].targets.len();
    let mut t: usize = 0;
    while t < count
        invariant
            t <= count,
            inst < f.insts@.len(),
            f.inst_wf(f.insts@[inst as int]),
            f@.insts[inst as int] == f.insts@[inst as int]@,
            count == f.insts@[inst as int].targets@.len(),
            seen@.len() == f.blocks@.len(),
            forall|u: int|
                0 <= u < t ==> seen@[(
                #[trigger] f@.insts[inst as int].targets[u]).0.0 as int],
        decreases count - t,
    {
        let block = f.insts[inst].targets[t].block;
        assert(f@.insts[inst as int].targets[t as int].0 == block);
        if !seen[block.0] {
            return Some(block.0);
        }
        t = t + 1;
    }
    None
}

/// A block that the block leads to and that was not seen yet.
fn unseen_successor(f: &Function, seen: &Vec<bool>, b: usize) -> (found: Option<usize>)
    requires
        f.wf(),
        seen@.len() == f.blocks@.len(),
        b < f.blocks@.len(),
    ensures
        match found {
            Some(c) => c < seen@.len() && !seen@[c as int] && leads(
                f@.insts,
                f@.blocks,
                b as int,
                c as int,
            ),
            None => forall|c: int|
                0 <= c < seen@.len() && leads(f@.insts, f@.blocks, b as int, c)
                    ==> #[trigger] seen@[c],
        },
{
    assert(f@.blocks[b as int] == f.blocks@[b as int]@);
    let count: usize = f.blocks[b].insts.len();
    let mut k: usize = 0;
    while k < count
        invariant
            k <= count,
            f.wf(),
            b < f.blocks@.len(),
            f@.blocks[b as int] == f.blocks@[b as int]@,
            count == f.blocks@[b as int].insts@.len(),
            seen@.len() == f.blocks@.len(),
            forall|l: int, t: int|
                0 <= l < k && 0 <= t < f@.insts[(
                #[trigger] f@.blocks[b as int].insts[l]).0 as int].targets.len() ==> seen@[(
                #[trigger] f@.insts[f@.blocks[b as int].insts[l].0 as int].targets[t]).0.0 as int],
        decreases count - k,
    {
        let inst = f.blocks[b].insts[k];
        assert(f@.blocks[b as int].insts[k as int] == inst);
        assert(f.blocks@[b as int].insts@[k as int].0 < f.insts@.len());
        match unseen_target(f, seen, inst.0) {
            Some(c) => {
                return Some(c);
            },
            None => {},
        }
        k = k + 1;
    }
    None
}

/// A block that was not seen yet and that a seen one leads to.
fn unseen_next(f: &Function, seen: &Vec<bool>) -> (found: Option<usize>)
    requires
        f.wf(),
        seen@.len() == f.blocks@.len(),
    ensures
        match found {
            Some(c) => c < seen@.len() && !seen@[c as int] && exists|b: int|
                0 <= b < seen@.len() && #[trigger] seen@[b] && leads(
                    f@.insts,
                    f@.blocks,
                    b,
                    c as int,
                ),
            None => forall|b: int, c: int|
                0 <= b < seen@.len() && 0 <= c < seen@.len() && (#[trigger] seen@[b]) && leads(
                    f@.insts,
                    f@.blocks,
                    b,
                    c,
                ) ==> #[trigger] seen@[c],
        },
{
    let count: usize = f.blocks.len();
    let mut b: usize = 0;
    while b < count
        invariant
            b <= count,
            f.wf(),
            count == f.blocks@.len(),
            seen@.len() == count,
            forall|a: int, c: int|
                0 <= a < b && 0 <= c < count && (#[trigger] seen@[a]) && leads(
                    f@.insts,
                    f@.blocks,
                    a,
                    c,
                ) ==> #[trigger] seen@[c],
        decreases count - b,
    {
        if seen[b] {
            match unseen_successor(f, seen, b) {
                Some(c) => {
                    return Some(c);
                },
                None => {},
            }
        }
        b = b + 1;
    }
    None
}

fn has_entry(f: &Function, b: usize) -> (found: bool)
    requires
        f.wf(),
        b < f.blocks@.len(),
    ensures
        found == exists|k: int|
            0 <= k < f@.blocks[b as int].insts.len() && f@.insts[(
            #[trigger] f@.blocks[b as int].insts[k]).0 as int].data is NixeEntry,
{
    assert(f@.blocks[b as int] == f.blocks@[b as int]@);
    let count: usize = f.blocks[b].insts.len();
    let mut k: usize = 0;
    while k < count
        invariant
            k <= count,
            f.wf(),
            b < f.blocks@.len(),
            f@.blocks[b as int] == f.blocks@[b as int]@,
            count == f.blocks@[b as int].insts@.len(),
            forall|l: int|
                0 <= l < k ==> !(f@.insts[(
                #[trigger] f@.blocks[b as int].insts[l]).0 as int].data is NixeEntry),
        decreases count - k,
    {
        let inst = f.blocks[b].insts[k];
        assert(f@.blocks[b as int].insts[k as int] == inst);
        assert(f.blocks@[b as int].insts@[k as int].0 < f.insts@.len());
        assert(f@.insts[inst.0 as int] == f.insts@[inst.0 as int]@);
        if let InstructionData::NixeEntry { .. } = f.insts[inst.0].data {
            return true;
        }
        k = k + 1;
    }
    false
}

fn find_roots(f: &Function) -> (roots: Vec<bool>)
    requires
        f.wf(),
    ensures
        roots@.len() == f.blocks@.len(),
        forall|b: int|
            0 <= b < roots@.len() ==> #[trigger] roots@[b] == is_root(f@.insts, f@.blocks, b),
{
    let mut roots: Vec<bool> = Vec::new();
    let count: usize = f.blocks.len();
    let mut b: usize = 0;
    while b < count
        invariant
            b <= count,
            f.wf(),
            count == f.blocks@.len(),
            roots@.len() == b,
            forall|a: int|
                0 <= a < b ==> #[trigger] roots@[a] == is_root(f@.insts, f@.blocks, a),
        decreases count - b,
    {
        let root = b == 0 || has_entry(f, b);
        roots.push(root);
        b = b + 1;
    }
    roots
}

/// Which blocks can be reached.
fn find_reachable(f: &Function) -> (seen: Vec<bool>)
    requires
        f.wf(),
    ensures
        seen@.len() == f.blocks@.len(),
        forall|b: int|
            0 <= b < seen@.len() ==> #[trigger] seen@[b] == reachable(f@.insts, f@.blocks, b),
{
    let mut seen = find_roots(f);
    assert(f@.blocks.len() == f.blocks@.len());
    assert forall|b: int| 0 <= b < seen@.len() && #[trigger] seen@[b] implies reachable(
        f@.insts,
        f@.blocks,
        b,
    ) by {
        lemma_roots_are_reachable(f@.insts, f@.blocks, b);
    }
    let mut next = unseen_next(f, &seen);
    while next.is_some()
        invariant
            f.wf(),
            seen@.len() == f.blocks@.len() == f@.blocks.len(),
            forall|b: int|
                0 <= b < seen@.len() && is_root(f@.insts, f@.blocks, b) ==> #[trigger] seen@[b],
            forall|b: int|
                0 <= b < seen@.len() && #[trigger] seen@[b] ==> reachable(f@.insts, f@.blocks, b),
            match next {
                Some(c) => c < seen@.len() && !seen@[c as int] && exists|b: int|
                    0 <= b < seen@.len() && #[trigger] seen@[b] && leads(
                        f@.insts,
                        f@.blocks,
                        b,
                        c as int,
                    ),
                None => forall|b: int, c: int|
                    0 <= b < seen@.len() && 0 <= c < seen@.len() && (#[trigger] seen@[b]) && leads(
                        f@.insts,
                        f@.blocks,
                        b,
                        c,
                    ) ==> #[trigger] seen@[c],
            },
        decreases unseen(seen@),
    {
        if let Some(c) = next {
            proof {
                let b = choose|b: int|
                    0 <= b < seen@.len() && #[trigger] seen@[b] && leads(
                        f@.insts,
                        f@.blocks,
                        b,
                        c as int,
                    );
                lemma_reachable_leads(f@.insts, f@.blocks, b, c as int);
                lemma_seeing_one_more(seen@, c as int);
            }
            seen.set(c, true);
        }
        next = unseen_next(f, &seen);
    }
    proof {
        assert forall|b: int| 0 <= b < seen@.len() implies #[trigger] seen@[b] == reachable(
            f@.insts,
            f@.blocks,
            b,
        ) by {
            if reachable(f@.insts, f@.blocks, b) {
                let path = choose|path: Seq<int>| #[trigger]
                    is_path(f@.insts, f@.blocks, path) && path.last() == b;
                lemma_closed_covers_reachable(
                    f@.insts,
                    f@.blocks,
                    seen@,
                    path,
                    path.len() - 1,
                );
            }
        }
    }
    seen
}

/// The blocks, without the instructions of those that cannot be reached.
pub open spec fn live_blocks(insts: Seq<InstView>, blocks: Seq<BlockView>) -> Seq<BlockView> {
    Seq::new(
        blocks.len(),
        |b: int|
            if reachable(insts, blocks, b) {
                blocks[b]
            } else {
                BlockView { insts: Seq::empty(), ..blocks[b] }
            },
    )
}

/// The block holds the exit with a given identity.
pub open spec fn exits_from(
    insts: Seq<InstView>,
    blocks: Seq<BlockView>,
    b: int,
    id: u64,
) -> bool {
    exists|k: int|
        0 <= k < blocks[b].insts.len() && validate::is_named(
            insts[(#[trigger] blocks[b].insts[k]).0 as int].data,
            id,
            false,
        )
}

/// The identities of all exits.
pub open spec fn exit_ids(insts: Seq<InstView>, blocks: Seq<BlockView>) -> Set<u64> {
    Set::new(
        |id: u64| exists|b: int| 0 <= b < blocks.len() && #[trigger] exits_from(insts, blocks, b, id),
    )
}

/// The fragment without what cannot run: branches whose condition is a literal
/// are jumps, blocks that control cannot come to are empty, and comparisons and
/// costs belong to the exits that are left.
pub open spec fn live_code(f: FunctionView) -> FunctionView {
    let insts = f.insts.map_values(|inst: InstView| folded(f, inst));
    let blocks = live_blocks(insts, f.blocks);
    FunctionView {
        insts,
        blocks,
        exit_compares: f.exit_compares.restrict(exit_ids(insts, blocks)),
        exit_costs: f.exit_costs.restrict(exit_ids(insts, blocks)),
        ..f
    }
}

/// Empties the blocks that cannot be reached.
fn clear_blocks(f: &mut Function)
    requires
        old(f).wf(),
    ensures
        final(f).wf(),
        final(f)@ == (FunctionView {
            blocks: live_blocks(old(f)@.insts, old(f)@.blocks),
            ..old(f)@
        }),
{
    let seen = find_reachable(f);
    let ghost before = *f;
    let count: usize = f.blocks.len();
    let mut b: usize = 0;
    while b < count
        invariant
            b <= count,
            count == before.blocks@.len() == before@.blocks.len(),
            before.wf(),
            f.wf(),
            f.blocks@.len() == count,
            f.insts == before.insts,
            f.value_types == before.value_types,
            f.value_defs == before.value_defs,
            f.constants == before.constants,
            f.stack_slots == before.stack_slots,
            f.nixe_entry_constraints == before.nixe_entry_constraints,
            f.nixe_exit_compares == before.nixe_exit_compares,
            f.nixe_exit_costs == before.nixe_exit_costs,
            f.nixe_observable_fp == before.nixe_observable_fp,
            seen@.len() == count,
            forall|a: int|
                0 <= a < count ==> #[trigger] seen@[a] == reachable(
                    before@.insts,
                    before@.blocks,
                    a,
                ),
            forall|a: int|
                0 <= a < b ==> (#[trigger] f.blocks@[a])@ == live_blocks(
                    before@.insts,
                    before@.blocks,
                )[a],
            forall|a: int| b <= a < count ==> #[trigger] f.blocks@[a] == before.blocks@[a],
        decreases count - b,
    {
        let ghost now = *f;
        assert(before@.blocks[b as int] == before.blocks@[b as int]@);
        if !seen[b] {
            f.blocks[b].insts.clear();
            proof {
                assert(f.blocks@[b as int]@.insts =~= Seq::empty());
                assert forall|i: int| 0 <= i < f.insts@.len() implies f.inst_wf(
                    #[trigger] f.insts@[i],
                ) by {
                    assert(now.inst_wf(now.insts@[i]));
                }
                assert forall|a: int| 0 <= a < f.blocks@.len() implies f.has_values(
                    (#[trigger] f.blocks@[a]).params@,
                ) && (forall|k: int|
                    0 <= k < f.blocks@[a].insts@.len() ==> (
                    #[trigger] f.blocks@[a].insts@[k]).0 < f.insts@.len()) by {
                    assert(now.has_values(now.blocks@[a].params@));
                }
            }
        }
        b = b + 1;
    }
    assert(f@.blocks =~= live_blocks(before@.insts, before@.blocks));
}

/// An exit is found in the layout exactly if its identity is that of an exit.
proof fn lemma_exits_are_found(f: Function, id: u64)
    requires
        f.wf(),
    ensures
        validate::find(f, validate::program(f), id, false) is Some <==> exit_ids(
            f@.insts,
            f@.blocks,
        ).contains(id),
{
    let order = validate::program(f);
    if validate::find(f, order, id, false) is Some {
        let i = validate::lemma_found_is_named(f, order, id, false);
        let (b, k) = validate::lemma_layout_comes_from(f, f.blocks@.len(), i);
        assert(f@.blocks[b] == f.blocks@[b]@);
        let inst = f@.blocks[b].insts[k];
        assert(f.blocks@[b].insts@[k].0 < f.insts@.len());
        assert(f@.insts[inst.0 as int] == f.insts@[inst.0 as int]@);
        assert(exits_from(f@.insts, f@.blocks, b, id));
    }
    if exit_ids(f@.insts, f@.blocks).contains(id) {
        let b = choose|b: int|
            0 <= b < f@.blocks.len() && #[trigger] exits_from(f@.insts, f@.blocks, b, id);
        assert(f@.blocks[b] == f.blocks@[b]@);
        let k = choose|k: int|
            0 <= k < f@.blocks[b].insts.len() && validate::is_named(
                f@.insts[(#[trigger] f@.blocks[b].insts[k]).0 as int].data,
                id,
                false,
            );
        let inst = f@.blocks[b].insts[k];
        assert(f.blocks@[b].insts@[k].0 < f.insts@.len());
        assert(f@.insts[inst.0 as int] == f.insts@[inst.0 as int]@);
        let i = validate::lemma_layout_holds(f, f.blocks@.len(), b, k);
        validate::lemma_named_is_found(f, order, id, false, i);
    }
}

/// The keys of a map that do not belong to an exit.
fn dead_keys<V>(f: &Function, map: &BTreeMap<u64, V>) -> (dead: Vec<u64>)
    requires
        f.wf(),
    ensures
        forall|id: u64|
            dead@.contains(id) <==> #[trigger] map@.contains_key(id) && !exit_ids(
                f@.insts,
                f@.blocks,
            ).contains(id),
{
    let order = flatten(f);
    let keys = keys_of(map);
    let mut dead: Vec<u64> = Vec::new();
    let count: usize = keys.len();
    let mut i: usize = 0;
    while i < count
        invariant
            i <= count,
            f.wf(),
            count == keys@.len(),
            order@ == validate::program(*f),
            validate::listed(*f, order@),
            forall|j: int|
                0 <= j < dead@.len() ==> keys@.contains(#[trigger] dead@[j]) && !exit_ids(
                    f@.insts,
                    f@.blocks,
                ).contains(dead@[j]),
            forall|j: int|
                0 <= j < i && !exit_ids(f@.insts, f@.blocks).contains(#[trigger] keys@[j])
                    ==> dead@.contains(keys@[j]),
        decreases count - i,
    {
        let id = keys[i];
        proof {
            lemma_exits_are_found(*f, id);
        }
        let ghost known = dead@;
        if find_named(f, &order, id, false).is_none() {
            dead.push(id);
            proof {
                assert(dead@[known.len() as int] == id);
                assert forall|j: int|
                    0 <= j < i && !exit_ids(f@.insts, f@.blocks).contains(
                        #[trigger] keys@[j],
                    ) implies dead@.contains(keys@[j]) by {
                    let l = choose|l: int| 0 <= l < known.len() && known[l] == keys@[j];
                    assert(dead@[l] == keys@[j]);
                }
            }
        }
        i = i + 1;
    }
    assert forall|id: u64|
        dead@.contains(id) <==> #[trigger] map@.contains_key(id) && !exit_ids(
            f@.insts,
            f@.blocks,
        ).contains(id) by {
        if dead@.contains(id) {
            let j = choose|j: int| 0 <= j < dead@.len() && dead@[j] == id;
            assert(keys@.contains(dead@[j]));
        }
        if map@.contains_key(id) && !exit_ids(f@.insts, f@.blocks).contains(id) {
            let j = choose|j: int| 0 <= j < keys@.len() && keys@[j] == id;
            assert(dead@.contains(keys@[j]));
        }
    }
    dead
}

/// Removes keys from a map.
fn remove_keys<V>(map: &mut BTreeMap<u64, V>, dead: &Vec<u64>)
    ensures
        forall|id: u64| #[trigger]
            final(map)@.contains_key(id) <==> old(map)@.contains_key(id) && !dead@.contains(id),
        forall|id: u64| #[trigger]
            final(map)@.contains_key(id) ==> final(map)@[id] == old(map)@[id],
{
    let count: usize = dead.len();
    let mut i: usize = 0;
    while i < count
        invariant
            i <= count,
            count == dead@.len(),
            forall|id: u64| #[trigger]
                map@.contains_key(id) <==> old(map)@.contains_key(id) && !dead@.take(
                    i as int,
                ).contains(id),
            forall|id: u64| #[trigger] map@.contains_key(id) ==> map@[id] == old(map)@[id],
        decreases count - i,
    {
        let ghost left = map@;
        map.remove(&dead[i]);
        proof {
            assert(map@ == left.remove(dead@[i as int]));
            assert(dead@.take(i + 1) =~= dead@.take(i as int).push(dead@[i as int]));
            assert forall|id: u64| #[trigger]
                map@.contains_key(id) <==> old(map)@.contains_key(id) && !dead@.take(
                    i + 1,
                ).contains(id) by {
                let short = dead@.take(i as int);
                let long = short.push(dead@[i as int]);
                assert(long[i as int] == dead@[i as int]);
                if short.contains(id) {
                    let j = choose|j: int| 0 <= j < short.len() && short[j] == id;
                    assert(long[j] == id);
                }
                assert(left.contains_key(id) <==> old(map)@.contains_key(id) && !short.contains(
                    id,
                ));
            }
        }
        i = i + 1;
    }
    assert(dead@.take(count as int) =~= dead@);
}

/// Removes what cannot run. A fragment is to be validated first, so that nothing
/// that is removed hides a broken rule.
pub fn remove_dead_code(f: &mut Function)
    requires
        old(f).wf(),
    ensures
        final(f).wf(),
        final(f)@ == live_code(old(f)@),
{
    fold_branches(f);
    clear_blocks(f);
    let ghost live = *f;
    let compares = dead_keys(f, &f.nixe_exit_compares);
    let costs = dead_keys(f, &f.nixe_exit_costs);
    remove_keys(&mut f.nixe_exit_compares, &compares);
    remove_keys(&mut f.nixe_exit_costs, &costs);
    proof {
        let insts = live@.insts;
        let blocks = live@.blocks;
        assert(f@.exit_compares =~= old(f)@.exit_compares.restrict(exit_ids(insts, blocks)));
        assert(f@.exit_costs =~= old(f)@.exit_costs.restrict(exit_ids(insts, blocks)));
        assert(f@ =~= live_code(old(f)@));
        assert forall|i: int| 0 <= i < f.insts@.len() implies f.inst_wf(#[trigger] f.insts@[i]) by {
            assert(live.inst_wf(live.insts@[i]));
        }
    }
}

/// `after` is `before` without what cannot run.
pub open spec fn is_live_code(before: Function, after: Function) -> bool {
    before.wf() && after.wf() && after@ == live_code(before@)
}

/// An instruction changes only if it is a branch that became a jump.
proof fn lemma_only_branches_change(before: Function, after: Function, i: int)
    requires
        is_live_code(before, after),
        0 <= i < before.insts@.len(),
    ensures
        after.insts@.len() == before.insts@.len(),
        after.insts@[i].results@ == before.insts@[i].results@,
        after.insts@[i]@ == before.insts@[i]@ || (before.insts@[i].data is Other
            && before.insts@[i].data.op() == Opcode::Brif && after.insts@[i].data == (
        InstructionData::Other { opcode: Opcode::Jump, imm: 0 })),
{
    assert(after@.insts.len() == after.insts@.len());
    assert(before@.insts.len() == before.insts@.len());
    assert(before@.insts[i] == before.insts@[i]@);
    assert(after@.insts[i] == after.insts@[i]@);
    assert(after@.insts[i] == folded(before@, before@.insts[i]));
}

/// A block keeps all of its instructions or loses all of them.
proof fn lemma_blocks_stay_or_empty(before: Function, after: Function, b: int)
    requires
        is_live_code(before, after),
        0 <= b < before.blocks@.len(),
    ensures
        after.blocks@.len() == before.blocks@.len(),
        after.blocks@[b].insts@ == before.blocks@[b].insts@ || after.blocks@[b].insts@
            == Seq::<Inst>::empty(),
{
    assert(after@.blocks.len() == after.blocks@.len());
    assert(before@.blocks.len() == before.blocks@.len());
    assert(before@.blocks[b] == before.blocks@[b]@);
    assert(after@.blocks[b] == after.blocks@[b]@);
}

/// Where instruction number `i` of the layout of `after` stands in that of
/// `before`.
spec fn origin(before: Function, after: Function, blocks: nat, i: int) -> int
    decreases blocks,
{
    if blocks == 0 {
        i
    } else {
        let kept = validate::layout(after, (blocks - 1) as nat).len();
        if i < kept {
            origin(before, after, (blocks - 1) as nat, i)
        } else {
            validate::layout(before, (blocks - 1) as nat).len() + (i - kept)
        }
    }
}

proof fn lemma_origin(before: Function, after: Function, blocks: nat, i: int)
    requires
        is_live_code(before, after),
        blocks <= before.blocks@.len(),
        0 <= i < validate::layout(after, blocks).len(),
    ensures
        0 <= origin(before, after, blocks, i) < validate::layout(before, blocks).len(),
        validate::layout(before, blocks)[origin(before, after, blocks, i)] == validate::layout(
            after,
            blocks,
        )[i],
        validate::layout(after, blocks)[i].0 < before.insts@.len(),
    decreases blocks,
{
    let fewer = (blocks - 1) as nat;
    let kept = validate::layout(after, fewer).len();
    lemma_blocks_stay_or_empty(before, after, blocks - 1);
    if i < kept {
        lemma_origin(before, after, fewer, i);
    } else {
        assert(before.blocks@[blocks - 1].insts@[i - kept].0 < before.insts@.len());
    }
}

proof fn lemma_origins_keep_order(before: Function, after: Function, blocks: nat, i: int, j: int)
    requires
        is_live_code(before, after),
        blocks <= before.blocks@.len(),
        0 <= i < j < validate::layout(after, blocks).len(),
    ensures
        origin(before, after, blocks, i) < origin(before, after, blocks, j),
    decreases blocks,
{
    let fewer = (blocks - 1) as nat;
    let kept = validate::layout(after, fewer).len();
    if j < kept {
        lemma_origins_keep_order(before, after, fewer, i, j);
    } else if i < kept {
        lemma_origin(before, after, fewer, i);
    }
}

/// Instruction number `i` of what is left, and what it was.
proof fn lemma_left(before: Function, after: Function, i: int) -> (e: int)
    requires
        is_live_code(before, after),
        0 <= i < validate::program(after).len(),
    ensures
        e == origin(before, after, before.blocks@.len(), i),
        0 <= e < validate::program(before).len(),
        validate::program(before)[e] == validate::program(after)[i],
        validate::program(after)[i].0 < before.insts@.len(),
        ({
            let was = validate::data_at(before, validate::program(before), e);
            let is = validate::data_at(after, validate::program(after), i);
            &&& is == was || (was is Other && is is Other)
        }),
{
    let blocks = before.blocks@.len();
    assert(after@.blocks.len() == after.blocks@.len());
    assert(before@.blocks.len() == before.blocks@.len());
    lemma_origin(before, after, blocks, i);
    lemma_only_branches_change(before, after, validate::program(after)[i].0 as int);
    origin(before, after, blocks, i)
}

proof fn lemma_spans_stay(before: Function, after: Function, insts: Seq<Inst>)
    requires
        is_live_code(before, after),
        forall|k: int| 0 <= k < insts.len() ==> (#[trigger] insts[k]).0 < before.insts@.len(),
    ensures
        validate::span_after(after, insts) == validate::span_after(before, insts),
    decreases insts.len(),
{
    if insts.len() > 0 {
        lemma_spans_stay(before, after, insts.drop_last());
        lemma_only_branches_change(before, after, insts.last().0 as int);
    }
}

proof fn lemma_no_span_violation(before: Function, after: Function, blocks: nat)
    requires
        is_live_code(before, after),
        blocks <= before.blocks@.len(),
        validate::span_violation(before, blocks) is None,
    ensures
        validate::span_violation(after, blocks) is None,
    decreases blocks,
{
    if blocks > 0 {
        let b = blocks - 1;
        lemma_no_span_violation(before, after, b as nat);
        lemma_blocks_stay_or_empty(before, after, b);
        assert forall|k: int| 0 <= k < before.blocks@[b].insts@.len() implies (
        #[trigger] before.blocks@[b].insts@[k]).0 < before.insts@.len() by {}
        lemma_spans_stay(before, after, before.blocks@[b].insts@);
    }
}

/// What is found by its identity in what is left was found before.
proof fn lemma_same_is_found(before: Function, after: Function, id: u64, entry: bool)
    requires
        is_live_code(before, after),
        !validate::bad_ids(before, validate::program(before)),
        validate::find(after, validate::program(after), id, entry) is Some,
    ensures
        validate::find(after, validate::program(after), id, entry) == validate::find(
            before,
            validate::program(before),
            id,
            entry,
        ),
        ({
            let inst = validate::find(after, validate::program(after), id, entry)->Some_0;
            inst.0 < before.insts@.len() && after.insts@[inst.0 as int]@
                == before.insts@[inst.0 as int]@
        }),
{
    let left = validate::program(after);
    let all = validate::program(before);
    let i = validate::lemma_found_is_named(after, left, id, entry);
    let e = lemma_left(before, after, i);
    validate::lemma_named_is_found(before, all, id, entry, e);
    let j = validate::lemma_found_is_named(before, all, id, entry);
    let one = validate::given_id(validate::data_at(before, all, e));
    let other = validate::given_id(validate::data_at(before, all, j));
    assert(one is Some && other is Some);
    assert(one->Some_0 >= 0 && other->Some_0 >= 0);
    assert(one == other);
    assert(e == j);
    lemma_only_branches_change(before, after, left[i].0 as int);
}

/// An entry is never removed.
proof fn lemma_entries_stay(before: Function, after: Function, id: u64)
    requires
        is_live_code(before, after),
        validate::find(before, validate::program(before), id, true) is Some,
    ensures
        validate::find(after, validate::program(after), id, true) is Some,
{
    let all = validate::program(before);
    let j = validate::lemma_found_is_named(before, all, id, true);
    let (b, k) = validate::lemma_layout_comes_from(before, before.blocks@.len(), j);
    let inst = before.blocks@[b].insts@[k];
    assert(inst.0 < before.insts@.len());
    lemma_only_branches_change(before, after, inst.0 as int);
    assert(after.insts@[inst.0 as int].data == before.insts@[inst.0 as int].data);
    assert(after@.blocks.len() == after.blocks@.len());
    assert(before@.blocks.len() == before.blocks@.len());
    assert(before@.blocks[b] == before.blocks@[b]@);
    assert(after@.blocks[b] == after.blocks@[b]@);
    assert(after@.insts[inst.0 as int] == after.insts@[inst.0 as int]@);
    assert(before@.blocks[b].insts[k] == inst);
    assert(is_root(after@.insts, before@.blocks, b));
    lemma_roots_are_reachable(after@.insts, before@.blocks, b);
    assert(after.blocks@[b].insts@[k] == inst);
    let i = validate::lemma_layout_holds(after, after.blocks@.len(), b, k);
    validate::lemma_named_is_found(after, validate::program(after), id, true, i);
}

proof fn lemma_no_new_layout_violation(before: Function, after: Function, isa: TargetIsa)
    requires
        is_live_code(before, after),
        validate::first_violation(before, isa) is None,
    ensures
        !isa.nixe_abi ==> !validate::has_boundary(after, validate::program(after)),
        !isa.nixe_abi ==> !validate::has_charge(after, validate::program(after)),
        !validate::bad_ids(after, validate::program(after)),
        !validate::bad_charge(after, validate::program(after)),
        validate::span_violation(after, after.blocks@.len()) is None,
{
    let left = validate::program(after);
    let all = validate::program(before);
    assert(after@.blocks.len() == after.blocks@.len());
    assert(before@.blocks.len() == before.blocks@.len());
    assert forall|i: int|
        0 <= i < left.len() && !isa.nixe_abi implies !validate::is_boundary(
        #[trigger] validate::data_at(after, left, i),
    ) && validate::charged(validate::data_at(after, left, i)) is None by {
        let e = lemma_left(before, after, i);
        let _ = validate::data_at(before, all, e);
    }
    assert forall|i: int| 0 <= i < left.len() implies (validate::given_id(
        #[trigger] validate::data_at(after, left, i),
    ) matches Some(id) ==> id >= 0) && (validate::charged(
        validate::data_at(after, left, i),
    ) matches Some(cost) ==> 1 <= cost <= MAX_COST) by {
        let e = lemma_left(before, after, i);
        let _ = validate::data_at(before, all, e);
    }
    assert forall|i: int, j: int|
        0 <= i < j < left.len() && validate::given_id(
            #[trigger] validate::data_at(after, left, i),
        ) is Some implies validate::given_id(validate::data_at(after, left, i))
        != validate::given_id(#[trigger] validate::data_at(after, left, j)) by {
        let d = lemma_left(before, after, i);
        let e = lemma_left(before, after, j);
        lemma_origins_keep_order(before, after, before.blocks@.len(), i, j);
        let _ = validate::data_at(before, all, d);
        let _ = validate::data_at(before, all, e);
    }
    lemma_no_span_violation(before, after, before.blocks@.len());
}

proof fn lemma_no_new_exit_violation(before: Function, after: Function, isa: TargetIsa)
    requires
        is_live_code(before, after),
        validate::first_violation(before, isa) is None,
    ensures
        !validate::bad_comparison(after, validate::program(after)),
        !validate::bad_cost(after, validate::program(after)),
{
    let left = validate::program(after);
    let all = validate::program(before);
    assert forall|id: u64| #[trigger]
        after.nixe_exit_compares@.contains_key(id) implies validate::comparison_allowed(
        after,
        left,
        id,
        after.nixe_exit_compares@[id],
    ) by {
        assert(after@.exit_compares.contains_key(id));
        assert(before.nixe_exit_compares@.contains_key(id));
        lemma_exits_are_found(after, id);
        lemma_same_is_found(before, after, id, false);
        let exit = validate::find(after, left, id, false)->Some_0;
        assert(after.insts@[exit.0 as int]@.args == before.insts@[exit.0 as int]@.args);
        assert(after@.value_types == before@.value_types);
    }
    assert forall|id: u64| #[trigger] after.nixe_exit_costs@.contains_key(id) implies validate::find(
        after,
        left,
        id,
        false,
    ) is Some && after.nixe_exit_costs@[id] <= MAX_COST by {
        assert(after@.exit_costs.contains_key(id));
        assert(before.nixe_exit_costs@.contains_key(id));
        lemma_exits_are_found(after, id);
    }
}

proof fn lemma_no_new_entry_violation(
    before: Function,
    after: Function,
    isa: TargetIsa,
    rule: Violation,
)
    requires
        is_live_code(before, after),
        validate::first_violation(before, isa) is None,
        !validate::bad_entry(before, validate::program(before), isa.arch, rule),
    ensures
        !validate::bad_entry(after, validate::program(after), isa.arch, rule),
{
    let left = validate::program(after);
    let all = validate::program(before);
    assert forall|id: u64| #[trigger]
        after.nixe_entry_constraints@.contains_key(id) implies !validate::entry_breaks(
        after,
        left,
        isa.arch,
        id,
        rule,
    ) by {
        assert(after@.entry_constraints.contains_key(id));
        assert(before@.entry_constraints.contains_key(id));
        assert(before.nixe_entry_constraints@.contains_key(id));
        assert(after@.entry_constraints[id] == after.nixe_entry_constraints@[id]@);
        assert(before@.entry_constraints[id] == before.nixe_entry_constraints@[id]@);
        assert(!validate::entry_breaks(before, all, isa.arch, id, rule));
        assert(!validate::entry_breaks(before, all, isa.arch, id, Violation::EntryMissing));
        lemma_entries_stay(before, after, id);
        lemma_same_is_found(before, after, id, true);
        let entry = validate::find(after, left, id, true)->Some_0;
        assert(after.insts@[entry.0 as int]@.results == before.insts@[entry.0 as int]@.results);
        assert(after@.value_types == before@.value_types);
    }
}

/// Removing what cannot run keeps a fragment valid.
pub proof fn lemma_live_code_stays_valid(before: Function, after: Function, isa: TargetIsa)
    requires
        is_live_code(before, after),
        validate::first_violation(before, isa) is None,
    ensures
        validate::first_violation(after, isa) is None,
{
    lemma_no_new_layout_violation(before, after, isa);
    lemma_no_new_exit_violation(before, after, isa);
    lemma_no_new_entry_violation(before, after, isa, Violation::EntryMissing);
    lemma_no_new_entry_violation(before, after, isa, Violation::EntryCount);
    lemma_no_new_entry_violation(before, after, isa, Violation::EntryRegister);
    lemma_no_new_entry_violation(before, after, isa, Violation::EntryOverlap);
}

} // verus!
