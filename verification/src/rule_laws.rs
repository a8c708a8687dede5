//! What the rules on fragments say, one by one and all together.

use vstd::prelude::*;

use crate::error::CodegenError;
use crate::ir;
use crate::ir::{Function, Inst, InstructionData, Opcode};
use crate::isa::{Arch, TargetIsa};
use crate::reg::RegClass;
use crate::state_map::{EntryConstraint, ExitCompare};
use crate::types::Type;
use crate::validate;
use crate::validate::{Span, Violation};

verus! {

broadcast use vstd::std_specs::btree::group_btree_axioms;

/// The registers that a result may be asked for in. A vector register is any of its
/// bank. An integer register is one without a role of its own.
pub proof fn lemma_allowed_registers(ty: Type, index: u8, vector: bool)
    ensures
        Arch::X64.allows(ty, index, vector) <==> (vector <==> ty.class() == RegClass::Float) && (
        if vector {
            index < 16
        } else {
            index <= 3 || 6 <= index <= 10 || index == 12
        }),
        Arch::AArch64.allows(ty, index, vector) <==> (vector <==> ty.class() == RegClass::Float)
            && (if vector {
            index < 32
        } else {
            index <= 15 || 22 <= index <= 28
        }),
        Arch::X64.bank_size() == 16 && Arch::AArch64.bank_size() == 32,
        Arch::X64.patch_width() == 8 && Arch::AArch64.patch_width() == 4,
        crate::isa::MAX_COST == 2048,
        crate::isa::CODE_ALIGNMENT == 8,
{
}

/// The layout is one block after the other.
pub proof fn lemma_layout_in_order(f: Function, blocks: nat)
    ensures
        validate::layout(f, 0).len() == 0,
        validate::layout(f, blocks + 1).len() == validate::layout(f, blocks).len()
            + f.blocks@[blocks as int].insts@.len(),
        forall|i: int|
            0 <= i < validate::layout(f, blocks).len() ==> #[trigger] validate::layout(
                f,
                blocks + 1,
            )[i] == validate::layout(f, blocks)[i],
        forall|k: int|
            0 <= k < f.blocks@[blocks as int].insts@.len() ==> validate::layout(
                f,
                blocks + 1,
            )[validate::layout(f, blocks).len() + k] == #[trigger] f.blocks@[blocks as int].insts@[k],
        validate::program(f) == validate::layout(f, f.blocks@.len()),
{
    let before = validate::layout(f, blocks);
    let own = f.blocks@[blocks as int].insts@;
    assert(validate::layout(f, blocks + 1) == before + own);
    assert forall|k: int| 0 <= k < own.len() implies validate::layout(f, blocks + 1)[before.len()
        + k] == #[trigger] own[k] by {}
}

/// The instruction at a place of the layout.
pub open spec fn at(f: Function, order: Seq<Inst>, i: int) -> InstructionData {
    f.insts@[order[i].0 as int].data
}

/// The instruction is the entry, or the exit, whose identity is the word of `id`.
pub open spec fn names(data: InstructionData, id: u64, entry: bool) -> bool {
    ||| entry && exists|imm: i64|
        data == (InstructionData::NixeEntry { imm }) && #[trigger] ir::word64(imm) == id
    ||| !entry && exists|imm: i64|
        data == (InstructionData::NixeBoundary { opcode: Opcode::NixeExit, imm })
            && #[trigger] ir::word64(imm) == id
}

/// The entry or exit with an identity is at place `i`, and at no place before.
pub open spec fn first_at(
    f: Function,
    order: Seq<Inst>,
    id: u64,
    entry: bool,
    i: int,
) -> bool {
    &&& 0 <= i < order.len()
    &&& names(at(f, order, i), id, entry)
    &&& forall|j: int| 0 <= j < i ==> !names(#[trigger] at(f, order, j), id, entry)
}

proof fn lemma_names(data: InstructionData, id: u64, entry: bool)
    ensures
        names(data, id, entry) <==> validate::is_named(data, id, entry),
{
    if validate::is_named(data, id, entry) {
        match data {
            InstructionData::NixeEntry { imm } => {
                assert(ir::word64(imm) == id);
            },
            InstructionData::NixeBoundary { opcode, imm } => {
                assert(ir::word64(imm) == id);
            },
            _ => {},
        }
    }
}

/// An instruction is the exit with an identity exactly if it leaves, and the word of
/// its immediate is the identity.
pub proof fn lemma_named_exits(data: InstructionData, id: u64)
    ensures
        validate::is_named(data, id, false) <==> names(data, id, false),
        validate::is_named(data, id, true) <==> names(data, id, true),
{
    lemma_names(data, id, false);
    lemma_names(data, id, true);
}

/// An entry or exit is found exactly if there is one, and then it is the first.
pub proof fn lemma_first_is_found(f: Function, order: Seq<Inst>, id: u64, entry: bool)
    ensures
        validate::find(f, order, id, entry) is None <==> forall|i: int|
            0 <= i < order.len() ==> !names(#[trigger] at(f, order, i), id, entry),
        validate::find(f, order, id, entry) matches Some(inst) ==> exists|i: int| #[trigger]
            first_at(f, order, id, entry, i) && order[i] == inst,
        forall|i: int| #[trigger]
            first_at(f, order, id, entry, i) ==> validate::find(f, order, id, entry) == Some(
                order[i],
            ),
    decreases order.len(),
{
    if order.len() > 0 {
        let n = order.len() - 1;
        let before = order.drop_last();
        lemma_first_is_found(f, before, id, entry);
        lemma_names(at(f, order, n), id, entry);
        assert forall|i: int| 0 <= i < n implies at(f, before, i) == #[trigger] at(f, order, i) by {
            assert(before[i] == order[i]);
        }
        assert(order.last() == order[n]);
        match validate::find(f, before, id, entry) {
            Some(inst) => {
                let i = choose|i: int| #[trigger]
                    first_at(f, before, id, entry, i) && before[i] == inst;
                assert(first_at(f, order, id, entry, i));
                assert forall|j: int| #[trigger] first_at(f, order, id, entry, j) implies j
                    == i by {
                    let _ = at(f, order, i);
                    let _ = at(f, order, j);
                }
            },
            None => {
                assert forall|i: int| 0 <= i < n implies !names(
                    #[trigger] at(f, order, i),
                    id,
                    entry,
                ) by {
                    let _ = at(f, before, i);
                }
                if names(at(f, order, n), id, entry) {
                    assert(first_at(f, order, id, entry, n));
                }
            },
        }
    }
}

/// A comparison is allowed exactly if it belongs to an exit, both of its indices
/// are those of arguments, and these have the same type, `I32` or `I64`. Which of
/// the indices is larger does not matter.
pub proof fn lemma_allowed_comparisons(
    f: Function,
    order: Seq<Inst>,
    id: u64,
    c: ExitCompare,
    i: int,
)
    requires
        first_at(f, order, id, false, i),
    ensures
        ({
            let args = f.insts@[order[i].0 as int].args@;
            let lhs = f.value_types@[args[c.lhs as int].0 as int];
            let rhs = f.value_types@[args[c.rhs as int].0 as int];
            validate::comparison_allowed(f, order, id, c) <==> {
                &&& c.lhs < args.len() && c.rhs < args.len()
                &&& (lhs == Type::I32 && rhs == Type::I32) || (lhs == Type::I64 && rhs
                    == Type::I64)
            }
        }),
{
    lemma_first_is_found(f, order, id, false);
}

/// Without an exit that it belongs to, a comparison is not allowed.
pub proof fn lemma_comparison_needs_exit(f: Function, order: Seq<Inst>, id: u64, c: ExitCompare)
    requires
        forall|i: int| 0 <= i < order.len() ==> !names(#[trigger] at(f, order, i), id, false),
    ensures
        !validate::comparison_allowed(f, order, id, c),
{
    lemma_first_is_found(f, order, id, false);
}

/// A comparison and its mirror image are both allowed or both not.
pub proof fn lemma_mirrored_comparison(f: Function, order: Seq<Inst>, id: u64, c: ExitCompare)
    ensures
        validate::comparison_allowed(f, order, id, c) <==> validate::comparison_allowed(
            f,
            order,
            id,
            (ExitCompare { lhs: c.rhs, rhs: c.lhs }),
        ),
{
}

/// The identity that an instruction begins a fault span with.
pub open spec fn begins(data: InstructionData) -> Option<i64> {
    match data {
        InstructionData::NixeBoundary { opcode: Opcode::NixeFaultStart, imm } => Some(imm),
        _ => None,
    }
}

/// The identity that an instruction ends a fault span with.
pub open spec fn ends(data: InstructionData) -> Option<i64> {
    match data {
        InstructionData::NixeBoundary { opcode: Opcode::NixeFaultEnd, imm } => Some(imm),
        _ => None,
    }
}

/// The instruction may stand between the two ends of a fault span: it is no
/// boundary, no charge, no branch, no mere trap, and no access that is said not to
/// trap.
pub open spec fn may_stand_inside(data: InstructionData) -> bool {
    &&& !(data is NixeEntry) && !(data is NixeBoundary)
    &&& !(data is UnaryImm && data->UnaryImm_opcode == Opcode::NixeCharge)
    &&& data matches InstructionData::Memory { notrap, .. } ==> !notrap
    &&& data matches InstructionData::Other { opcode, .. } ==> opcode != Opcode::Trapnz && opcode
        != Opcode::Jump && opcode != Opcode::Brif && opcode != Opcode::Return
}

/// A span that the instruction at `s` begins is open right before place `k`.
pub open spec fn open_from(f: Function, insts: Seq<Inst>, s: int, k: int) -> bool {
    &&& 0 <= s < k <= insts.len()
    &&& begins(at(f, insts, s)) is Some
    &&& forall|j: int|
        s < j < k ==> begins(#[trigger] at(f, insts, j)) is None && ends(at(f, insts, j)) is None
}

/// Memory is accessed behind place `s` and before place `k`.
pub open spec fn accessed(f: Function, insts: Seq<Inst>, s: int, k: int) -> bool {
    exists|j: int| s < j < k && (#[trigger] at(f, insts, j)) is Memory
}

/// The instruction at `k` ends a span with the same identity in which memory is
/// accessed, or ends none and may stand where it does.
pub open spec fn suits(f: Function, insts: Seq<Inst>, k: int) -> bool {
    match ends(at(f, insts, k)) {
        Some(id) => exists|s: int| #[trigger]
            open_from(f, insts, s, k) && begins(at(f, insts, s)) == Some(id) && accessed(
                f,
                insts,
                s,
                k,
            ),
        None => forall|s: int| #[trigger]
            open_from(f, insts, s, k) ==> may_stand_inside(at(f, insts, k)),
    }
}

proof fn lemma_open_once(f: Function, insts: Seq<Inst>, s: int, t: int, k: int)
    requires
        open_from(f, insts, s, k),
        open_from(f, insts, t, k),
    ensures
        s == t,
{
    let _ = at(f, insts, s);
    let _ = at(f, insts, t);
}

proof fn lemma_shorter_span(f: Function, insts: Seq<Inst>, s: int, k: int)
    requires
        0 <= k < insts.len(),
    ensures
        open_from(f, insts.drop_last(), s, k) <==> open_from(f, insts, s, k),
        0 <= s ==> (accessed(f, insts.drop_last(), s, k) <==> accessed(f, insts, s, k)),
        0 <= s < k ==> at(f, insts.drop_last(), s) == at(f, insts, s),
{
    let before = insts.drop_last();
    assert forall|j: int| 0 <= j < k implies #[trigger] at(f, before, j) == at(f, insts, j) by {
        assert(before[j] == insts[j]);
    }
    if open_from(f, insts, s, k) {
        assert forall|j: int| s < j < k implies begins(#[trigger] at(f, before, j)) is None && ends(
            at(f, before, j),
        ) is None by {
            let _ = at(f, insts, j);
        }
        let _ = at(f, before, s);
    }
    if open_from(f, before, s, k) {
        assert forall|j: int| s < j < k implies begins(#[trigger] at(f, insts, j)) is None && ends(
            at(f, insts, j),
        ) is None by {
            let _ = at(f, before, j);
        }
        let _ = at(f, before, s);
    }
    if accessed(f, insts, s, k) && s >= 0 {
        let j = choose|j: int| s < j < k && (#[trigger] at(f, insts, j)) is Memory;
        let _ = at(f, before, j);
    }
    if accessed(f, before, s, k) && s >= 0 {
        let j = choose|j: int| s < j < k && (#[trigger] at(f, before, j)) is Memory;
        let _ = at(f, insts, j);
    }
}

proof fn lemma_shorter(f: Function, insts: Seq<Inst>, k: int)
    requires
        0 <= k < insts.len() - 1,
    ensures
        suits(f, insts.drop_last(), k) <==> suits(f, insts, k),
{
    let before = insts.drop_last();
    assert(before[k] == insts[k]);
    assert forall|s: int| #![trigger open_from(f, insts, s, k)] true implies (open_from(
        f,
        before,
        s,
        k,
    ) <==> open_from(f, insts, s, k)) && (open_from(f, insts, s, k) ==> (accessed(f, before, s, k)
        <==> accessed(f, insts, s, k)) && at(f, before, s) == at(f, insts, s)) by {
        lemma_shorter_span(f, insts, s, k);
    }
    assert forall|s: int| #[trigger] open_from(f, before, s, k) implies open_from(
        f,
        insts,
        s,
        k,
    ) by {
        lemma_shorter_span(f, insts, s, k);
    }
}

/// What following the instructions of a block tells: all of them suit, and a span is
/// left open exactly if one was begun and not ended, with its identity, and with
/// memory accessed in it or not.
proof fn lemma_followed_spans(f: Function, insts: Seq<Inst>)
    ensures
        validate::span_after(f, insts) is Ok <==> forall|k: int|
            0 <= k < insts.len() ==> #[trigger] suits(f, insts, k),
        validate::span_after(f, insts) matches Ok(None) ==> forall|s: int| !#[trigger] open_from(
            f,
            insts,
            s,
            insts.len() as int,
        ),
        validate::span_after(f, insts) matches Ok(Some(span)) ==> exists|s: int| #[trigger]
            open_from(f, insts, s, insts.len() as int) && begins(at(f, insts, s)) == Some(span.id)
                && (span.memory <==> accessed(f, insts, s, insts.len() as int)),
    decreases insts.len(),
{
    if insts.len() > 0 {
        let before = insts.drop_last();
        let n = before.len() as int;
        lemma_followed_spans(f, before);
        assert(insts.last() == insts[n]);
        assert forall|k: int| 0 <= k < n implies (#[trigger] suits(f, before, k) <==> suits(
            f,
            insts,
            k,
        )) by {
            lemma_shorter(f, insts, k);
        }
        if validate::span_after(f, before) is Ok {
            assert forall|k: int| 0 <= k < n implies #[trigger] suits(f, insts, k) by {
                assert(suits(f, before, k));
            }
            lemma_one_step(f, insts);
        } else {
            let k = choose|k: int| 0 <= k < n && !#[trigger] suits(f, before, k);
            assert(!suits(f, insts, k));
        }
    }
}

proof fn lemma_one_step(f: Function, insts: Seq<Inst>)
    requires
        insts.len() > 0,
        ({
            let before = insts.drop_last();
            let n = before.len() as int;
            &&& validate::span_after(f, before) is Ok
            &&& forall|k: int| 0 <= k < n ==> #[trigger] suits(f, insts, k)
            &&& validate::span_after(f, before) matches Ok(None) ==> forall|s: int|
                !#[trigger] open_from(f, before, s, n)
            &&& validate::span_after(f, before) matches Ok(Some(span)) ==> exists|s: int|
                #[trigger] open_from(f, before, s, n) && begins(at(f, before, s)) == Some(span.id)
                    && (span.memory <==> accessed(f, before, s, n))
        }),
    ensures
        validate::span_after(f, insts) is Ok <==> forall|k: int|
            0 <= k < insts.len() ==> #[trigger] suits(f, insts, k),
        validate::span_after(f, insts) matches Ok(None) ==> forall|s: int| !#[trigger] open_from(
            f,
            insts,
            s,
            insts.len() as int,
        ),
        validate::span_after(f, insts) matches Ok(Some(span)) ==> exists|s: int| #[trigger]
            open_from(f, insts, s, insts.len() as int) && begins(at(f, insts, s)) == Some(span.id)
                && (span.memory <==> accessed(f, insts, s, insts.len() as int)),
{
    let before = insts.drop_last();
    let n = before.len() as int;
    let data = at(f, insts, n);
    assert(insts.last() == insts[n]);
    assert forall|s: int| #[trigger] open_from(f, insts, s, n) implies open_from(
        f,
        before,
        s,
        n,
    ) by {
        lemma_shorter_span(f, insts, s, n);
    }
    assert forall|s: int| #[trigger] open_from(f, insts, s, n + 1) implies s == n || open_from(
        f,
        insts,
        s,
        n,
    ) by {
        if s != n {
            let _ = at(f, insts, n);
        }
    }
    match validate::span_after(f, before)->Ok_0 {
        None => {
            assert(suits(f, insts, n) <==> ends(data) is None);
            if begins(data) is Some {
                assert(open_from(f, insts, n, n + 1));
                assert(!accessed(f, insts, n, n + 1));
            }
        },
        Some(span) => {
            let s = choose|s: int| #[trigger]
                open_from(f, before, s, n) && begins(at(f, before, s)) == Some(span.id) && (
                span.memory <==> accessed(f, before, s, n));
            lemma_shorter_span(f, insts, s, n);
            assert forall|t: int| #[trigger] open_from(f, insts, t, n) implies t == s by {
                lemma_open_once(f, insts, s, t, n);
            }
            assert(suits(f, insts, n) <==> validate::span_step(Some(span), data) is Ok);
            if ends(data) is None && may_stand_inside(data) {
                assert(open_from(f, insts, s, n + 1)) by {
                    assert forall|j: int| s < j < n + 1 implies begins(
                        #[trigger] at(f, insts, j),
                    ) is None && ends(at(f, insts, j)) is None by {}
                }
                if accessed(f, insts, s, n) {
                    let j = choose|j: int| s < j < n && (#[trigger] at(f, insts, j)) is Memory;
                    assert(s < j < n + 1 && at(f, insts, j) is Memory);
                    assert(accessed(f, insts, s, n + 1));
                } else if accessed(f, insts, s, n + 1) {
                    let j = choose|j: int| s < j < n + 1 && (#[trigger] at(f, insts, j)) is Memory;
                    assert(j == n);
                }
            }
            if ends(data) is Some {
                assert forall|t: int| !#[trigger] open_from(f, insts, t, n + 1) by {
                    if open_from(f, insts, t, n + 1) {
                        let _ = at(f, insts, n);
                    }
                }
            }
        },
    }
}

/// A block breaks no rule on fault spans exactly if every instruction of it suits
/// and no span is open at its end.
pub proof fn lemma_unbroken_blocks(f: Function, block: int)
    ensures
        ({
            let insts = f.blocks@[block].insts@;
            validate::block_violation(f, block) is None <==> {
                &&& forall|k: int| 0 <= k < insts.len() ==> #[trigger] suits(f, insts, k)
                &&& forall|s: int| !#[trigger] open_from(f, insts, s, insts.len() as int)
            }
        }),
{
    lemma_followed_spans(f, f.blocks@[block].insts@);
}


/// Which rule an instruction breaks, given the span that is open before it.
pub proof fn lemma_broken_span_rules(open: Option<Span>, data: InstructionData)
    ensures
        ({
            let step = validate::span_step(open, data);
            &&& step == Err::<Option<Span>, Violation>(Violation::SpanMismatch) <==> (ends(
                data,
            ) is Some && (open is None || Some(open->Some_0.id) != ends(data)))
            &&& step == Err::<Option<Span>, Violation>(Violation::SpanEmpty) <==> (
            open matches Some(span) && Some(span.id) == ends(data) && !span.memory)
            &&& step == Err::<Option<Span>, Violation>(Violation::SpanNested) <==> (open is Some && (
            data is NixeEntry || (data matches InstructionData::NixeBoundary { opcode, .. }
                && opcode != Opcode::NixeExit && opcode != Opcode::NixeFaultEnd)))
            &&& step == Err::<Option<Span>, Violation>(Violation::SpanControlFlow) <==> (
            open is Some && ((data is NixeBoundary && data.op() == Opcode::NixeExit) || (
            data is Other && (data.op() == Opcode::Jump || data.op() == Opcode::Brif || data.op()
                == Opcode::Return))))
            &&& step == Err::<Option<Span>, Violation>(Violation::ChargeInSpan) <==> (open is Some
                && data is UnaryImm && data.op() == Opcode::NixeCharge)
            &&& step == Err::<Option<Span>, Violation>(Violation::SpanNotrap) <==> (open is Some
                && data matches InstructionData::Memory { notrap: true, .. })
            &&& step == Err::<Option<Span>, Violation>(Violation::SpanTrap) <==> (open is Some
                && data is Other && data.op() == Opcode::Trapnz)
            &&& step matches Ok(next) ==> {
                &&& next is Some <==> (begins(data) is Some || (open is Some && ends(data) is None))
                &&& open is None ==> (next matches Some(span) ==> begins(data) == Some(span.id)
                    && !span.memory)
                &&& open matches Some(span) ==> (next matches Some(after) ==> after.id == span.id
                    && (after.memory <==> span.memory || data is Memory))
            }
        }),
{
}

/// The rule on fault spans that a fragment breaks is the one that its first broken
/// block breaks. A block that leaves a span open breaks the rule on control flow.
pub proof fn lemma_first_broken_block(f: Function, blocks: nat)
    ensures
        validate::span_violation(f, blocks) is None <==> forall|b: int|
            0 <= b < blocks ==> #[trigger] validate::block_violation(f, b) is None,
        validate::span_violation(f, blocks) is Some ==> exists|b: int|
            0 <= b < blocks && validate::span_violation(f, blocks)
                == #[trigger] validate::block_violation(f, b) && forall|a: int|
                0 <= a < b ==> #[trigger] validate::block_violation(f, a) is None,
        forall|b: int|
            validate::span_after(f, f.blocks@[b].insts@) matches Ok(Some(span))
                ==> #[trigger] validate::block_violation(f, b) == Some(Violation::SpanControlFlow),
        forall|b: int|
            validate::span_after(f, f.blocks@[b].insts@) matches Err(violation)
                ==> #[trigger] validate::block_violation(f, b) == Some(violation),
    decreases blocks,
{
    if blocks > 0 {
        lemma_first_broken_block(f, (blocks - 1) as nat);
        match validate::span_violation(f, (blocks - 1) as nat) {
            Some(violation) => {},
            None => {
                let _ = validate::block_violation(f, blocks - 1);
            },
        }
    }
}

/// The identity of a boundary. The end of a fault span has that of its beginning
/// and counts for none.
pub open spec fn own_id(data: InstructionData) -> Option<i64> {
    if data is NixeEntry {
        Some(data->NixeEntry_imm)
    } else if data is NixeBoundary && ends(data) is None {
        Some(data->NixeBoundary_imm)
    } else {
        None
    }
}

/// The rules on instructions alone: on a target without boundaries, there is none
/// and no charge; identities are not negative and all different; and a charge is
/// between 1 and 2048.
pub proof fn lemma_instruction_rules(f: Function, order: Seq<Inst>)
    ensures
        validate::has_boundary(f, order) <==> exists|i: int|
            0 <= i < order.len() && ((#[trigger] at(f, order, i)) is NixeEntry || at(f, order, i)
                is NixeBoundary),
        validate::has_charge(f, order) <==> exists|i: int|
            0 <= i < order.len() && (#[trigger] at(f, order, i)) is UnaryImm && at(f, order, i).op()
                == Opcode::NixeCharge,
        validate::bad_charge(f, order) <==> exists|i: int|
            0 <= i < order.len() && (#[trigger] at(f, order, i)) is UnaryImm && at(f, order, i).op()
                == Opcode::NixeCharge && !(1 <= at(f, order, i)->UnaryImm_imm <= 2048),
        validate::bad_ids(f, order) <==> {
            ||| exists|i: int|
                0 <= i < order.len() && own_id(#[trigger] at(f, order, i)) is Some && own_id(
                    at(f, order, i),
                )->Some_0 < 0
            ||| exists|i: int, j: int|
                0 <= i < j < order.len() && own_id(#[trigger] at(f, order, i)) is Some && own_id(
                    at(f, order, i),
                ) == own_id(#[trigger] at(f, order, j))
        },
{
    assert forall|i: int| #[trigger] at(f, order, i) == validate::data_at(f, order, i) by {}
    assert forall|i: int|
        own_id(#[trigger] at(f, order, i)) == validate::given_id(
            validate::data_at(f, order, i),
        ) by {}
    assert forall|i: int| #[trigger] validate::data_at(f, order, i) == at(f, order, i) by {}
    if validate::bad_ids(f, order) {
        if exists|i: int|
            0 <= i < order.len() && (validate::given_id(
                #[trigger] validate::data_at(f, order, i),
            ) matches Some(id) && id < 0) {
            let i = choose|i: int|
                0 <= i < order.len() && (validate::given_id(
                    #[trigger] validate::data_at(f, order, i),
                ) matches Some(id) && id < 0);
            assert(own_id(at(f, order, i)) is Some);
        } else {
            let (i, j) = choose|i: int, j: int|
                0 <= i < j < order.len() && validate::given_id(
                    #[trigger] validate::data_at(f, order, i),
                ) is Some && validate::given_id(validate::data_at(f, order, i))
                    == validate::given_id(#[trigger] validate::data_at(f, order, j));
            assert(own_id(at(f, order, i)) == own_id(at(f, order, j)));
        }
    }
}

/// A cost belongs to an exit and is at most 2048.
pub proof fn lemma_cost_rule(f: Function, order: Seq<Inst>)
    ensures
        validate::bad_cost(f, order) <==> exists|id: u64| #[trigger]
            f.nixe_exit_costs@.contains_key(id) && (f.nixe_exit_costs@[id] > 2048 || forall|i: int|
                0 <= i < order.len() ==> !names(#[trigger] at(f, order, i), id, false)),
{
    assert forall|id: u64| #[trigger] f.nixe_exit_costs@.contains_key(id) implies (validate::find(
        f,
        order,
        id,
        false,
    ) is None <==> forall|i: int|
        0 <= i < order.len() ==> !names(#[trigger] at(f, order, i), id, false)) by {
        lemma_first_is_found(f, order, id, false);
    }
}

/// The rules on the constraints of one entry: it exists, each of its results has one
/// of them, each is met by a register of the right bank without a role of its own,
/// and no two name the same register.
pub proof fn lemma_entry_rules(f: Function, order: Seq<Inst>, arch: Arch, id: u64, i: int)
    requires
        first_at(f, order, id, true, i),
    ensures
        ({
            let asked = f.nixe_entry_constraints@[id]@;
            let results = f.insts@[order[i].0 as int].results@;
            &&& !validate::entry_breaks(f, order, arch, id, Violation::EntryMissing)
            &&& validate::entry_breaks(f, order, arch, id, Violation::EntryCount) <==> asked.len()
                != results.len()
            &&& validate::entry_breaks(f, order, arch, id, Violation::EntryRegister) <==> exists|
                k: int,
            |
                0 <= k < results.len() && k < asked.len() && (
                #[trigger] asked[k] matches EntryConstraint::Register { index, vector }
                    && !arch.allows(f.value_types@[results[k].0 as int], index, vector))
            &&& validate::entry_breaks(f, order, arch, id, Violation::EntryOverlap) <==> exists|
                k: int,
                l: int,
            |
                0 <= k < l < asked.len() && #[trigger] asked[k] != EntryConstraint::Any && asked[k]
                    == #[trigger] asked[l]
        }),
{
    lemma_first_is_found(f, order, id, true);
    let asked = f.nixe_entry_constraints@[id]@;
    let results = f.insts@[order[i].0 as int].results@;
    if validate::entry_breaks(f, order, arch, id, Violation::EntryRegister) {
        let k = choose|k: int|
            0 <= k < results.len() && k < asked.len() && !validate::constraint_allowed(
                arch,
                f.value_types@[results[k].0 as int],
                #[trigger] asked[k],
            );
        assert(asked[k] is Register);
    }
    if validate::entry_breaks(f, order, arch, id, Violation::EntryOverlap) {
        let (k, l) = choose|k: int, l: int|
            0 <= k < l < asked.len() && (#[trigger] asked[k]) is Register && asked[k]
                == #[trigger] asked[l];
        assert(asked[k] != EntryConstraint::Any);
    }
    assert forall|k: int, l: int|
        0 <= k < l < asked.len() && #[trigger] asked[k] != EntryConstraint::Any && asked[k]
            == #[trigger] asked[l] implies !validate::disjoint(asked) by {}
    assert forall|k: int|
        0 <= k < results.len() && k < asked.len() && (
        #[trigger] asked[k] matches EntryConstraint::Register { index, vector } && !arch.allows(
            f.value_types@[results[k].0 as int],
            index,
            vector,
        )) implies !validate::constraints_allowed(f, arch, order[i], asked) by {
        assert(!validate::constraint_allowed(
            arch,
            f.value_types@[results[k].0 as int],
            asked[k],
        ));
    }
}

/// Constraints without an entry are missing one, and whether they overlap does not
/// depend on that.
pub proof fn lemma_missing_entries(f: Function, order: Seq<Inst>, arch: Arch, id: u64)
    requires
        forall|i: int| 0 <= i < order.len() ==> !names(#[trigger] at(f, order, i), id, true),
    ensures
        validate::entry_breaks(f, order, arch, id, Violation::EntryMissing),
        !validate::entry_breaks(f, order, arch, id, Violation::EntryCount),
        !validate::entry_breaks(f, order, arch, id, Violation::EntryRegister),
{
    lemma_first_is_found(f, order, id, true);
}

/// The fragment breaks a rule, whatever other rules it breaks.
pub open spec fn breaks(f: Function, isa: TargetIsa, rule: Violation) -> bool {
    let order = validate::program(f);
    match rule {
        Violation::BoundaryAbi => !isa.nixe_abi && validate::has_boundary(f, order),
        Violation::ChargeAbi => !isa.nixe_abi && validate::has_charge(f, order),
        Violation::BoundaryIds => validate::bad_ids(f, order),
        Violation::ChargeCost => validate::bad_charge(f, order),
        Violation::Comparison => exists|id: u64| #[trigger]
            f.nixe_exit_compares@.contains_key(id) && !validate::comparison_allowed(
                f,
                order,
                id,
                f.nixe_exit_compares@[id],
            ),
        Violation::Checkpoint => validate::bad_cost(f, order),
        Violation::EntryMissing
        | Violation::EntryCount
        | Violation::EntryRegister
        | Violation::EntryOverlap => exists|id: u64| #[trigger]
            f.nixe_entry_constraints@.contains_key(id) && validate::entry_breaks(
                f,
                order,
                isa.arch,
                id,
                rule,
            ),
        _ => validate::span_violation(f, f.blocks@.len()) == Some(rule),
    }
}

/// When a rule is looked at.
pub open spec fn turn(rule: Violation) -> int {
    match rule {
        Violation::BoundaryAbi => 0,
        Violation::ChargeAbi => 1,
        Violation::BoundaryIds => 2,
        Violation::ChargeCost => 3,
        Violation::Comparison => 5,
        Violation::Checkpoint => 6,
        Violation::EntryMissing => 7,
        Violation::EntryCount => 8,
        Violation::EntryRegister => 9,
        Violation::EntryOverlap => 10,
        _ => 4,
    }
}

/// A fragment is refused exactly if it breaks a rule, and for a rule that it breaks
/// while it keeps all that are looked at before.
pub proof fn lemma_refusals(f: Function, isa: TargetIsa, rule: Violation)
    ensures
        validate::first_violation(f, isa) is None ==> !breaks(f, isa, rule),
        validate::first_violation(f, isa) matches Some(first) ==> {
            &&& breaks(f, isa, first)
            &&& turn(rule) < turn(first) ==> !breaks(f, isa, rule)
        },
{
    lemma_span_rules_only(f, f.blocks@.len());
}

proof fn lemma_span_rule_of_block(f: Function, insts: Seq<Inst>)
    ensures
        validate::span_after(f, insts) matches Err(violation) ==> turn(violation) == 4,
    decreases insts.len(),
{
    if insts.len() > 0 {
        lemma_span_rule_of_block(f, insts.drop_last());
    }
}

proof fn lemma_span_rules_only(f: Function, blocks: nat)
    ensures
        validate::span_violation(f, blocks) matches Some(violation) ==> turn(violation) == 4,
    decreases blocks,
{
    if blocks > 0 {
        lemma_span_rules_only(f, (blocks - 1) as nat);
        lemma_span_rule_of_block(f, f.blocks@[blocks - 1].insts@);
    }
}

/// Where every comparison belongs to an exit and to two of its arguments of the
/// same type, `I32` or `I64`, no fragment is refused for a comparison.
pub proof fn lemma_good_comparisons_are_not_refused(f: Function, isa: TargetIsa)
    requires
        forall|id: u64| #[trigger]
            f.nixe_exit_compares@.contains_key(id) ==> exists|i: int| #[trigger]
                first_at(f, validate::program(f), id, false, i) && {
                    let c = f.nixe_exit_compares@[id];
                    let args = f.insts@[validate::program(f)[i].0 as int].args@;
                    let lhs = f.value_types@[args[c.lhs as int].0 as int];
                    let rhs = f.value_types@[args[c.rhs as int].0 as int];
                    &&& c.lhs < args.len() && c.rhs < args.len()
                    &&& lhs == rhs
                    &&& lhs == Type::I32 || lhs == Type::I64
                },
    ensures
        validate::first_violation(f, isa) != Some(Violation::Comparison),
{
    let order = validate::program(f);
    assert forall|id: u64| #[trigger]
        f.nixe_exit_compares@.contains_key(id) implies validate::comparison_allowed(
        f,
        order,
        id,
        f.nixe_exit_compares@[id],
    ) by {
        let i = choose|i: int| #[trigger]
            first_at(f, order, id, false, i) && {
                let c = f.nixe_exit_compares@[id];
                let args = f.insts@[order[i].0 as int].args@;
                let lhs = f.value_types@[args[c.lhs as int].0 as int];
                let rhs = f.value_types@[args[c.rhs as int].0 as int];
                &&& c.lhs < args.len() && c.rhs < args.len()
                &&& lhs == rhs
                &&& lhs == Type::I32 || lhs == Type::I64
            };
        lemma_allowed_comparisons(f, order, id, f.nixe_exit_compares@[id], i);
    }
    lemma_refusals(f, isa, Violation::Comparison);
}

/// The second fragment is the first one, but for comparisons that are mirrored.
pub open spec fn mirrors(f: Function, g: Function) -> bool {
    &&& f.insts == g.insts
    &&& f.value_types == g.value_types
    &&& f.blocks == g.blocks
    &&& f.nixe_entry_constraints == g.nixe_entry_constraints
    &&& f.nixe_exit_costs == g.nixe_exit_costs
    &&& f.nixe_exit_compares@.dom() == g.nixe_exit_compares@.dom()
    &&& forall|id: u64| #[trigger]
        f.nixe_exit_compares@.contains_key(id) ==> {
            let (c, d) = (f.nixe_exit_compares@[id], g.nixe_exit_compares@[id]);
            (c.lhs == d.lhs && c.rhs == d.rhs) || (c.lhs == d.rhs && c.rhs == d.lhs)
        }
}

proof fn lemma_mirrored_layout(f: Function, g: Function, blocks: nat)
    requires
        mirrors(f, g),
    ensures
        validate::layout(f, blocks) == validate::layout(g, blocks),
        validate::span_violation(f, blocks) == validate::span_violation(g, blocks),
    decreases blocks,
{
    if blocks > 0 {
        lemma_mirrored_layout(f, g, (blocks - 1) as nat);
        lemma_mirrored_spans(f, g, f.blocks@[blocks - 1].insts@);
    }
}

proof fn lemma_mirrored_spans(f: Function, g: Function, insts: Seq<Inst>)
    requires
        mirrors(f, g),
    ensures
        validate::span_after(f, insts) == validate::span_after(g, insts),
    decreases insts.len(),
{
    if insts.len() > 0 {
        lemma_mirrored_spans(f, g, insts.drop_last());
    }
}

proof fn lemma_mirrored_find(f: Function, g: Function, order: Seq<Inst>, id: u64, entry: bool)
    requires
        mirrors(f, g),
    ensures
        validate::find(f, order, id, entry) == validate::find(g, order, id, entry),
    decreases order.len(),
{
    if order.len() > 0 {
        lemma_mirrored_find(f, g, order.drop_last(), id, entry);
    }
}

proof fn lemma_mirrored_rules(f: Function, g: Function, isa: TargetIsa, rule: Violation)
    requires
        mirrors(f, g),
        breaks(f, isa, rule),
    ensures
        breaks(g, isa, rule),
{
    let order = validate::program(f);
    lemma_mirrored_layout(f, g, f.blocks@.len());
    lemma_instruction_rules(f, order);
    lemma_instruction_rules(g, order);
    assert forall|i: int| #[trigger] at(f, order, i) == at(g, order, i) by {}
    match rule {
        Violation::BoundaryIds => {
            if exists|i: int|
                0 <= i < order.len() && own_id(#[trigger] at(f, order, i)) is Some && own_id(
                    at(f, order, i),
                )->Some_0 < 0 {
                let i = choose|i: int|
                    0 <= i < order.len() && own_id(#[trigger] at(f, order, i)) is Some && own_id(
                        at(f, order, i),
                    )->Some_0 < 0;
                let _ = at(g, order, i);
            } else {
                let (i, j) = choose|i: int, j: int|
                    0 <= i < j < order.len() && own_id(#[trigger] at(f, order, i)) is Some
                        && own_id(at(f, order, i)) == own_id(#[trigger] at(f, order, j));
                let _ = at(g, order, i);
                let _ = at(g, order, j);
            }
        },
        Violation::Comparison => {
            let id = choose|id: u64| #[trigger]
                f.nixe_exit_compares@.contains_key(id) && !validate::comparison_allowed(
                    f,
                    order,
                    id,
                    f.nixe_exit_compares@[id],
                );
            lemma_mirrored_find(f, g, order, id, false);
            assert(g.nixe_exit_compares@.dom().contains(id));
            lemma_mirrored_comparison(f, order, id, f.nixe_exit_compares@[id]);
        },
        Violation::Checkpoint => {
            let id = choose|id: u64| #[trigger]
                f.nixe_exit_costs@.contains_key(id) && (validate::find(f, order, id, false) is None
                    || f.nixe_exit_costs@[id] > crate::isa::MAX_COST);
            lemma_mirrored_find(f, g, order, id, false);
        },
        Violation::EntryMissing
        | Violation::EntryCount
        | Violation::EntryRegister
        | Violation::EntryOverlap => {
            let id = choose|id: u64| #[trigger]
                f.nixe_entry_constraints@.contains_key(id) && validate::entry_breaks(
                    f,
                    order,
                    isa.arch,
                    id,
                    rule,
                );
            lemma_mirrored_find(f, g, order, id, true);
            if rule == Violation::EntryRegister {
                let entry = validate::find(f, order, id, true)->Some_0;
                let asked = f.nixe_entry_constraints@[id]@;
                assert(validate::constraints_allowed(f, isa.arch, entry, asked)
                    == validate::constraints_allowed(g, isa.arch, entry, asked));
            }
        },
        _ => {},
    }
}

/// Mirroring comparisons never changes the verdict on a fragment.
pub proof fn lemma_mirrored_comparisons_same_verdict(f: Function, g: Function, isa: TargetIsa)
    requires
        mirrors(f, g),
    ensures
        validate::first_violation(f, isa) == validate::first_violation(g, isa),
{
    lemma_mirrored_layout(f, g, f.blocks@.len());
    assert(mirrors(g, f)) by {
        assert forall|id: u64| #[trigger] g.nixe_exit_compares@.contains_key(id) implies {
            let (c, d) = (g.nixe_exit_compares@[id], f.nixe_exit_compares@[id]);
            (c.lhs == d.lhs && c.rhs == d.rhs) || (c.lhs == d.rhs && c.rhs == d.lhs)
        } by {
            assert(f.nixe_exit_compares@.dom().contains(id));
            assert(f.nixe_exit_compares@.contains_key(id));
        }
    }
    if let Some(rule) = validate::first_violation(f, isa) {
        lemma_refusals(f, isa, rule);
        lemma_mirrored_rules(f, g, isa, rule);
        lemma_refusals(g, isa, rule);
        let other = validate::first_violation(g, isa)->Some_0;
        lemma_mirrored_rules(g, f, isa, other);
        lemma_refusals(f, isa, other);
    } else if let Some(rule) = validate::first_violation(g, isa) {
        lemma_refusals(g, isa, rule);
        lemma_mirrored_rules(g, f, isa, rule);
        lemma_refusals(f, isa, rule);
    }
}

/// The words of each rule.
pub proof fn lemma_words_of_rules()
    ensures
        Violation::BoundaryAbi.words() == "boundary requires Nixe ABI"@,
        Violation::ChargeAbi.words() == "charge requires Nixe ABI"@,
        Violation::BoundaryIds.words() == "boundaries require unique nonnegative IDs"@,
        Violation::ChargeCost.words() == "charge must be between 1 and 2048"@,
        Violation::ChargeInSpan.words() == "charge cannot be inside a fault span"@,
        Violation::SpanMismatch.words() == "fault delimiters must match"@,
        Violation::SpanNested.words() == "fault spans cannot nest"@,
        Violation::SpanControlFlow.words() == "fault spans cannot cross control flow"@,
        Violation::SpanEmpty.words() == "fault span requires a trapping memory operation"@,
        Violation::SpanNotrap.words() == "fault span memory operations cannot be notrap"@,
        Violation::SpanTrap.words() == "fault spans cannot contain non-memory traps"@,
        Violation::Comparison.words()
            == "exit comparison requires an exit and two I32 or two I64 arguments"@,
        Violation::Checkpoint.words()
            == "checkpoint requires an exit and a cost of at most 2048"@,
        Violation::EntryMissing.words() == "entry constraints have a missing entry ID"@,
        Violation::EntryCount.words() == "entry constraints must match result count"@,
        Violation::EntryRegister.words() == "entry constraint has an invalid register or bank"@,
        Violation::EntryOverlap.words() == "entry registers cannot overlap"@,
{
}

/// The text of an error is all that it holds.
pub proof fn lemma_error_text(error: CodegenError)
    ensures
        error matches CodegenError::Unsupported(text) && text@ == error.text(),
{
}

} // verus!
