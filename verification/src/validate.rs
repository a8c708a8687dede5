//! What a fragment must meet before it is lowered.

use std::collections::BTreeMap;

use vstd::prelude::*;
use vstd::std_specs::iter::IteratorSpec;

use crate::error::{unsupported, CodegenError, CodegenResult};
use crate::ir;
use crate::ir::{imm_bits, Function, Inst, InstructionData, Opcode};
use crate::isa::{Arch, TargetIsa, MAX_COST};
use crate::state_map::{EntryConstraint, ExitCompare};
use crate::types::Type;

verus! {

broadcast use vstd::std_specs::btree::group_btree_axioms;

/// The rule that a fragment breaks.
#[derive(Clone, Copy, Debug, PartialEq, Eq, Structural)]
pub enum Violation {
    /// A boundary stands in a fragment for a target without boundaries.
    BoundaryAbi,
    /// A charge stands in a fragment for a target without boundaries.
    ChargeAbi,
    /// A boundary identity is negative or repeated.
    BoundaryIds,
    /// A charge stands for no work, or for too much.
    ChargeCost,
    /// A charge stands inside a fault span.
    ChargeInSpan,
    /// A fault span ends that was not begun.
    SpanMismatch,
    /// A boundary stands inside a fault span.
    SpanNested,
    /// A fault span does not end in its block.
    SpanControlFlow,
    /// Nothing in a fault span can fault.
    SpanEmpty,
    /// A memory operation in a fault span is said not to trap.
    SpanNotrap,
    /// An instruction in a fault span traps without an access to memory.
    SpanTrap,
    /// A comparison does not belong to an exit, or not to two of its arguments
    /// of the same type `I32` or `I64`.
    Comparison,
    /// A cost does not belong to an exit, or is too high.
    Checkpoint,
    /// Constraints belong to no entry.
    EntryMissing,
    /// An entry does not have one constraint per result.
    EntryCount,
    /// A result cannot be in the register that is asked for.
    EntryRegister,
    /// The same register is asked for twice.
    EntryOverlap,
}

impl Violation {
    /// The words of the rule.
    pub open spec fn words(self) -> Seq<char> {
        match self {
            Violation::BoundaryAbi => "boundary requires Nixe ABI"@,
            Violation::ChargeAbi => "charge requires Nixe ABI"@,
            Violation::BoundaryIds => "boundaries require unique nonnegative IDs"@,
            Violation::ChargeCost => "charge must be between 1 and 2048"@,
            Violation::ChargeInSpan => "charge cannot be inside a fault span"@,
            Violation::SpanMismatch => "fault delimiters must match"@,
            Violation::SpanNested => "fault spans cannot nest"@,
            Violation::SpanControlFlow => "fault spans cannot cross control flow"@,
            Violation::SpanEmpty => "fault span requires a trapping memory operation"@,
            Violation::SpanNotrap => "fault span memory operations cannot be notrap"@,
            Violation::SpanTrap => "fault spans cannot contain non-memory traps"@,
            Violation::Comparison => "exit comparison requires an exit and two I32 or two I64 arguments"@,
            Violation::Checkpoint => "checkpoint requires an exit and a cost of at most 2048"@,
            Violation::EntryMissing => "entry constraints have a missing entry ID"@,
            Violation::EntryCount => "entry constraints must match result count"@,
            Violation::EntryRegister => "entry constraint has an invalid register or bank"@,
            Violation::EntryOverlap => "entry registers cannot overlap"@,
        }
    }

    /// The error that reports the violation.
    fn error(self) -> (error: CodegenError)
        ensures
            error.text() == "Nixe "@ + self.words(),
    {
        let words = match self {
            Violation::BoundaryAbi => "boundary requires Nixe ABI",
            Violation::ChargeAbi => "charge requires Nixe ABI",
            Violation::BoundaryIds => "boundaries require unique nonnegative IDs",
            Violation::ChargeCost => "charge must be between 1 and 2048",
            Violation::ChargeInSpan => "charge cannot be inside a fault span",
            Violation::SpanMismatch => "fault delimiters must match",
            Violation::SpanNested => "fault spans cannot nest",
            Violation::SpanControlFlow => "fault spans cannot cross control flow",
            Violation::SpanEmpty => "fault span requires a trapping memory operation",
            Violation::SpanNotrap => "fault span memory operations cannot be notrap",
            Violation::SpanTrap => "fault spans cannot contain non-memory traps",
            Violation::Comparison => "exit comparison requires an exit and two I32 or two I64 arguments",
            Violation::Checkpoint => "checkpoint requires an exit and a cost of at most 2048",
            Violation::EntryMissing => "entry constraints have a missing entry ID",
            Violation::EntryCount => "entry constraints must match result count",
            Violation::EntryRegister => "entry constraint has an invalid register or bank",
            Violation::EntryOverlap => "entry registers cannot overlap",
        };
        unsupported("Nixe ", words)
    }
}

/// The instructions of the first `blocks` blocks, in layout order.
pub open spec fn layout(f: Function, blocks: nat) -> Seq<Inst>
    decreases blocks,
{
    if blocks == 0 {
        Seq::empty()
    } else {
        layout(f, (blocks - 1) as nat) + f.blocks@[blocks - 1].insts@
    }
}

/// All instructions, in layout order.
pub open spec fn program(f: Function) -> Seq<Inst> {
    layout(f, f.blocks@.len())
}

/// What instruction number `i` of `order` is.
pub open spec fn data_at(f: Function, order: Seq<Inst>, i: int) -> InstructionData {
    f.insts@[order[i].0 as int].data
}

/// The instruction is a boundary.
pub open spec fn is_boundary(data: InstructionData) -> bool {
    data is NixeEntry || data is NixeBoundary
}

/// The identity that the instruction gives to a boundary or a fault span.
pub open spec fn given_id(data: InstructionData) -> Option<i64> {
    match data {
        InstructionData::NixeEntry { imm } => Some(imm),
        InstructionData::NixeBoundary { opcode, imm } => if opcode == Opcode::NixeFaultEnd {
            None
        } else {
            Some(imm)
        },
        _ => None,
    }
}

/// The work that the instruction charges.
pub open spec fn charged(data: InstructionData) -> Option<i64> {
    match data {
        InstructionData::UnaryImm { opcode: Opcode::NixeCharge, imm } => Some(imm),
        _ => None,
    }
}

/// There is a boundary.
pub open spec fn has_boundary(f: Function, order: Seq<Inst>) -> bool {
    exists|i: int| 0 <= i < order.len() && is_boundary(#[trigger] data_at(f, order, i))
}

/// There is a charge.
pub open spec fn has_charge(f: Function, order: Seq<Inst>) -> bool {
    exists|i: int| 0 <= i < order.len() && charged(#[trigger] data_at(f, order, i)) is Some
}

/// An identity is negative, or two are the same.
pub open spec fn bad_ids(f: Function, order: Seq<Inst>) -> bool {
    ||| exists|i: int|
        0 <= i < order.len() && (given_id(#[trigger] data_at(f, order, i)) matches Some(id) && id
            < 0)
    ||| exists|i: int, j: int|
        0 <= i < j < order.len() && given_id(#[trigger] data_at(f, order, i)) is Some && given_id(
            data_at(f, order, i),
        ) == given_id(#[trigger] data_at(f, order, j))
}

/// A charge is out of range.
pub open spec fn bad_charge(f: Function, order: Seq<Inst>) -> bool {
    exists|i: int|
        0 <= i < order.len() && (charged(#[trigger] data_at(f, order, i)) matches Some(cost) && !(1
            <= cost <= MAX_COST))
}

pub(crate) fn flatten(f: &Function) -> (order: Vec<Inst>)
    requires
        f.wf(),
    ensures
        order@ == program(*f),
        listed(*f, order@),
{
    let mut order: Vec<Inst> = Vec::new();
    let blocks: usize = f.blocks.len();
    let mut b: usize = 0;
    while b < blocks
        invariant
            b <= blocks,
            blocks == f.blocks@.len(),
            f.wf(),
            order@ == layout(*f, b as nat),
            forall|i: int| 0 <= i < order@.len() ==> (#[trigger] order@[i]).0 < f.insts@.len(),
        decreases blocks - b,
    {
        let ghost before = order@;
        let count: usize = f.blocks[b].insts.len();
        let mut k: usize = 0;
        while k < count
            invariant
                k <= count,
                b < blocks == f.blocks@.len(),
                count == f.blocks@[b as int].insts@.len(),
                f.wf(),
                order@ == before + f.blocks@[b as int].insts@.take(k as int),
                forall|i: int| 0 <= i < order@.len() ==> (#[trigger] order@[i]).0 < f.insts@.len(),
            decreases count - k,
        {
            assert(f.blocks@[b as int].insts@[k as int].0 < f.insts@.len());
            order.push(f.blocks[b].insts[k]);
            k = k + 1;
            assert(order@ =~= before + f.blocks@[b as int].insts@.take(k as int));
        }
        assert(f.blocks@[b as int].insts@.take(count as int) =~= f.blocks@[b as int].insts@);
        b = b + 1;
    }
    order
}

/// `order` names instructions of `f` only.
pub open spec fn listed(f: Function, order: Seq<Inst>) -> bool {
    forall|i: int| 0 <= i < order.len() ==> (#[trigger] order[i]).0 < f.insts@.len()
}

fn find_boundary(f: &Function, order: &Vec<Inst>) -> (found: bool)
    requires
        listed(*f, order@),
    ensures
        found == has_boundary(*f, order@),
{
    let count: usize = order.len();
    let mut i: usize = 0;
    while i < count
        invariant
            i <= count,
            count == order@.len(),
            listed(*f, order@),
            forall|j: int| 0 <= j < i ==> !is_boundary(#[trigger] data_at(*f, order@, j)),
        decreases count - i,
    {
        let data = f.insts[order[i].0].data;
        assert(data == data_at(*f, order@, i as int));
        match data {
            InstructionData::NixeEntry { .. } | InstructionData::NixeBoundary { .. } => {
                return true;
            },
            _ => {},
        }
        i = i + 1;
    }
    false
}

fn charge_of(data: InstructionData) -> (cost: Option<i64>)
    ensures
        cost == charged(data),
{
    match data {
        InstructionData::UnaryImm { opcode: Opcode::NixeCharge, imm } => Some(imm),
        _ => None,
    }
}

fn find_charge(f: &Function, order: &Vec<Inst>) -> (found: bool)
    requires
        listed(*f, order@),
    ensures
        found == has_charge(*f, order@),
{
    let count: usize = order.len();
    let mut i: usize = 0;
    while i < count
        invariant
            i <= count,
            count == order@.len(),
            listed(*f, order@),
            forall|j: int| 0 <= j < i ==> charged(#[trigger] data_at(*f, order@, j)) is None,
        decreases count - i,
    {
        let data = f.insts[order[i].0].data;
        assert(data == data_at(*f, order@, i as int));
        if charge_of(data).is_some() {
            return true;
        }
        i = i + 1;
    }
    false
}

fn find_bad_charge(f: &Function, order: &Vec<Inst>) -> (found: bool)
    requires
        listed(*f, order@),
    ensures
        found == bad_charge(*f, order@),
{
    let count: usize = order.len();
    let mut i: usize = 0;
    while i < count
        invariant
            i <= count,
            count == order@.len(),
            listed(*f, order@),
            forall|j: int|
                0 <= j < i ==> (charged(#[trigger] data_at(*f, order@, j)) matches Some(cost) ==> 1
                    <= cost <= MAX_COST),
        decreases count - i,
    {
        let data = f.insts[order[i].0].data;
        assert(data == data_at(*f, order@, i as int));
        if let Some(cost) = charge_of(data) {
            if cost < 1 || cost > MAX_COST as i64 {
                return true;
            }
        }
        i = i + 1;
    }
    false
}

fn id_of(data: InstructionData) -> (id: Option<i64>)
    ensures
        id == given_id(data),
{
    match data {
        InstructionData::NixeEntry { imm } => Some(imm),
        InstructionData::NixeBoundary { opcode, imm } => if opcode == Opcode::NixeFaultEnd {
            None
        } else {
            Some(imm)
        },
        _ => None,
    }
}

fn find_bad_ids(f: &Function, order: &Vec<Inst>) -> (found: bool)
    requires
        listed(*f, order@),
    ensures
        found == bad_ids(*f, order@),
{
    let count: usize = order.len();
    let mut j: usize = 0;
    while j < count
        invariant
            j <= count,
            count == order@.len(),
            listed(*f, order@),
            forall|i: int|
                0 <= i < j ==> (given_id(#[trigger] data_at(*f, order@, i)) matches Some(id) ==> id
                    >= 0),
            forall|i: int, k: int|
                0 <= i < k < j && given_id(#[trigger] data_at(*f, order@, i)) is Some ==> given_id(
                    data_at(*f, order@, i),
                ) != given_id(#[trigger] data_at(*f, order@, k)),
        decreases count - j,
    {
        let data = f.insts[order[j].0].data;
        assert(data == data_at(*f, order@, j as int));
        if let Some(id) = id_of(data) {
            if id < 0 {
                return true;
            }
            let mut i: usize = 0;
            while i < j
                invariant
                    i <= j < count,
                    count == order@.len(),
                    listed(*f, order@),
                    given_id(data_at(*f, order@, j as int)) == Some(id),
                    forall|k: int|
                        0 <= k < i ==> given_id(#[trigger] data_at(*f, order@, k)) != Some(id),
                decreases j - i,
            {
                let earlier = f.insts[order[i].0].data;
                assert(earlier == data_at(*f, order@, i as int));
                if let Some(other) = id_of(earlier) {
                    if other == id {
                        return true;
                    }
                }
                i = i + 1;
            }
        }
        j = j + 1;
    }
    false
}

/// The keys of a map, in any order.
pub(crate) fn keys_of<V>(map: &BTreeMap<u64, V>) -> (keys: Vec<u64>)
    ensures
        forall|key: u64| #[trigger] map@.contains_key(key) <==> keys@.contains(key),
{
    let mut keys: Vec<u64> = Vec::new();
    let ghost all = map.keys().remaining();
    for key in it: map.keys()
        invariant
            it.seq() == all,
            keys@ == all.unref().take(it.index() as int),
    {
        keys.push(*key);
        assert(keys@ =~= all.unref().take(it.index() + 1));
    }
    assert(keys@ =~= all.unref());
    assert(keys@.to_set() =~= map@.dom());
    assert forall|key: u64| #[trigger] map@.contains_key(key) <==> keys@.contains(key) by {
        assert(keys@.to_set().contains(key) <==> keys@.contains(key));
    }
    keys
}

/// A fault span that is open.
#[derive(Clone, Copy, Debug, PartialEq, Eq, Structural)]
pub struct Span {
    /// The identity that it was begun with.
    pub id: i64,
    /// It holds a memory operation.
    pub memory: bool,
}

/// What an instruction makes of the open fault span, or the rule that it breaks.
pub open spec fn span_step(open: Option<Span>, data: InstructionData) -> Result<
    Option<Span>,
    Violation,
> {
    match open {
        None => match data {
            InstructionData::NixeBoundary { opcode: Opcode::NixeFaultStart, imm } => Ok(
                Some(Span { id: imm, memory: false }),
            ),
            InstructionData::NixeBoundary { opcode: Opcode::NixeFaultEnd, .. } => Err(
                Violation::SpanMismatch,
            ),
            _ => Ok(None),
        },
        Some(span) => match data {
            InstructionData::NixeBoundary { opcode: Opcode::NixeFaultEnd, imm } => if imm
                != span.id {
                Err(Violation::SpanMismatch)
            } else if !span.memory {
                Err(Violation::SpanEmpty)
            } else {
                Ok(None)
            },
            InstructionData::NixeBoundary { opcode: Opcode::NixeExit, .. } => Err(
                Violation::SpanControlFlow,
            ),
            InstructionData::NixeBoundary { .. } | InstructionData::NixeEntry { .. } => Err(
                Violation::SpanNested,
            ),
            InstructionData::UnaryImm { opcode: Opcode::NixeCharge, .. } => Err(
                Violation::ChargeInSpan,
            ),
            InstructionData::Memory { notrap, .. } => if notrap {
                Err(Violation::SpanNotrap)
            } else {
                Ok(Some(Span { memory: true, ..span }))
            },
            InstructionData::Other { opcode: Opcode::Trapnz, .. } => Err(Violation::SpanTrap),
            InstructionData::Other {
                opcode: Opcode::Jump | Opcode::Brif | Opcode::Return,
                ..
            } => Err(Violation::SpanControlFlow),
            _ => Ok(Some(span)),
        },
    }
}

/// The fault span that is open after instructions of one block, or the first
/// rule that they break.
pub open spec fn span_after(f: Function, insts: Seq<Inst>) -> Result<Option<Span>, Violation>
    decreases insts.len(),
{
    if insts.len() == 0 {
        Ok(None)
    } else {
        match span_after(f, insts.drop_last()) {
            Ok(open) => span_step(open, f.insts@[insts.last().0 as int].data),
            Err(violation) => Err(violation),
        }
    }
}

/// The rule on fault spans that a block breaks first.
pub open spec fn block_violation(f: Function, block: int) -> Option<Violation> {
    match span_after(f, f.blocks@[block].insts@) {
        Ok(None) => None,
        Ok(Some(_)) => Some(Violation::SpanControlFlow),
        Err(violation) => Some(violation),
    }
}

/// The rule on fault spans that the first `blocks` blocks break first.
pub open spec fn span_violation(f: Function, blocks: nat) -> Option<Violation>
    decreases blocks,
{
    if blocks == 0 {
        None
    } else {
        match span_violation(f, (blocks - 1) as nat) {
            Some(violation) => Some(violation),
            None => block_violation(f, blocks - 1),
        }
    }
}

fn step_span(open: Option<Span>, data: InstructionData) -> (next: Result<Option<Span>, Violation>)
    ensures
        next == span_step(open, data),
{
    match open {
        None => match data {
            InstructionData::NixeBoundary { opcode: Opcode::NixeFaultStart, imm } => Ok(
                Some(Span { id: imm, memory: false }),
            ),
            InstructionData::NixeBoundary { opcode: Opcode::NixeFaultEnd, .. } => Err(
                Violation::SpanMismatch,
            ),
            _ => Ok(None),
        },
        Some(span) => match data {
            InstructionData::NixeBoundary { opcode: Opcode::NixeFaultEnd, imm } => if imm
                != span.id {
                Err(Violation::SpanMismatch)
            } else if !span.memory {
                Err(Violation::SpanEmpty)
            } else {
                Ok(None)
            },
            InstructionData::NixeBoundary { opcode: Opcode::NixeExit, .. } => Err(
                Violation::SpanControlFlow,
            ),
            InstructionData::NixeBoundary { .. } | InstructionData::NixeEntry { .. } => Err(
                Violation::SpanNested,
            ),
            InstructionData::UnaryImm { opcode: Opcode::NixeCharge, .. } => Err(
                Violation::ChargeInSpan,
            ),
            InstructionData::Memory { notrap, .. } => if notrap {
                Err(Violation::SpanNotrap)
            } else {
                Ok(Some(Span { id: span.id, memory: true }))
            },
            InstructionData::Other { opcode: Opcode::Trapnz, .. } => Err(Violation::SpanTrap),
            InstructionData::Other {
                opcode: Opcode::Jump | Opcode::Brif | Opcode::Return,
                ..
            } => Err(Violation::SpanControlFlow),
            _ => Ok(Some(span)),
        },
    }
}

proof fn lemma_span_stays_broken(f: Function, insts: Seq<Inst>, count: int)
    requires
        0 <= count <= insts.len(),
        span_after(f, insts.take(count)) is Err,
    ensures
        span_after(f, insts) == span_after(f, insts.take(count)),
    decreases insts.len(),
{
    if count == insts.len() {
        assert(insts.take(count) =~= insts);
    } else {
        assert(insts.drop_last().take(count) =~= insts.take(count));
        lemma_span_stays_broken(f, insts.drop_last(), count);
    }
}

fn check_block_spans(f: &Function, block: usize) -> (violation: Option<Violation>)
    requires
        f.wf(),
        block < f.blocks@.len(),
    ensures
        violation == block_violation(*f, block as int),
{
    let ghost insts = f.blocks@[block as int].insts@;
    let count: usize = f.blocks[block].insts.len();
    let mut open: Option<Span> = None;
    let mut k: usize = 0;
    assert(insts.take(0) =~= Seq::empty());
    while k < count
        invariant
            k <= count,
            f.wf(),
            block < f.blocks@.len(),
            insts == f.blocks@[block as int].insts@,
            count == insts.len(),
            span_after(*f, insts.take(k as int)) == Ok::<Option<Span>, Violation>(open),
        decreases count - k,
    {
        let inst = f.blocks[block].insts[k];
        assert(inst.0 < f.insts@.len());
        assert(insts.take(k + 1).drop_last() =~= insts.take(k as int));
        match step_span(open, f.insts[inst.0].data) {
            Ok(next) => {
                open = next;
            },
            Err(violation) => {
                proof {
                    lemma_span_stays_broken(*f, insts, k + 1);
                }
                return Some(violation);
            },
        }
        k = k + 1;
    }
    assert(insts.take(k as int) =~= insts);
    match open {
        None => None,
        Some(_) => Some(Violation::SpanControlFlow),
    }
}

proof fn lemma_first_span_violation(f: Function, blocks: nat, total: nat)
    requires
        blocks <= total,
        span_violation(f, blocks) is Some,
    ensures
        span_violation(f, total) == span_violation(f, blocks),
    decreases total,
{
    if blocks < total {
        lemma_first_span_violation(f, blocks, (total - 1) as nat);
    }
}

fn check_spans(f: &Function) -> (violation: Option<Violation>)
    requires
        f.wf(),
    ensures
        violation == span_violation(*f, f.blocks@.len()),
{
    let blocks: usize = f.blocks.len();
    let mut b: usize = 0;
    while b < blocks
        invariant
            b <= blocks,
            blocks == f.blocks@.len(),
            f.wf(),
            span_violation(*f, b as nat) is None,
        decreases blocks - b,
    {
        let violation = check_block_spans(f, b);
        b = b + 1;
        if violation.is_some() {
            proof {
                lemma_first_span_violation(*f, b as nat, blocks as nat);
            }
            return violation;
        }
    }
    None
}

/// The instruction is the entry or the exit with a given identity.
pub open spec fn is_named(data: InstructionData, id: u64, entry: bool) -> bool {
    match data {
        InstructionData::NixeEntry { imm } => entry && ir::word64(imm) == id,
        InstructionData::NixeBoundary { opcode: Opcode::NixeExit, imm } => !entry && ir::word64(imm)
            == id,
        _ => false,
    }
}

/// The first entry or exit with a given identity.
pub open spec fn find(f: Function, order: Seq<Inst>, id: u64, entry: bool) -> Option<Inst>
    decreases order.len(),
{
    if order.len() == 0 {
        None
    } else {
        match find(f, order.drop_last(), id, entry) {
            Some(inst) => Some(inst),
            None => if is_named(f.insts@[order.last().0 as int].data, id, entry) {
                Some(order.last())
            } else {
                None
            },
        }
    }
}

/// The types of the arguments of an instruction.
pub open spec fn arg_type(f: Function, inst: Inst, index: int) -> Type {
    f.value_types@[f.insts@[inst.0 as int].args@[index].0 as int]
}

/// The comparison belongs to an exit and to two of its arguments of the same
/// type, which is `I32` or `I64`.
pub open spec fn comparison_allowed(
    f: Function,
    order: Seq<Inst>,
    id: u64,
    c: ExitCompare,
) -> bool {
    &&& find(f, order, id, false) matches Some(exit)
    &&& c.lhs < f.insts@[exit.0 as int].args@.len()
    &&& c.rhs < f.insts@[exit.0 as int].args@.len()
    &&& arg_type(f, exit, c.lhs as int) == arg_type(f, exit, c.rhs as int)
    &&& arg_type(f, exit, c.lhs as int) == Type::I32 || arg_type(f, exit, c.lhs as int) == Type::I64
}

/// A comparison is not allowed.
pub open spec fn bad_comparison(f: Function, order: Seq<Inst>) -> bool {
    exists|id: u64| #[trigger]
        f.nixe_exit_compares@.contains_key(id) && !comparison_allowed(
            f,
            order,
            id,
            f.nixe_exit_compares@[id],
        )
}

/// A cost belongs to no exit, or is too high.
pub open spec fn bad_cost(f: Function, order: Seq<Inst>) -> bool {
    exists|id: u64| #[trigger]
        f.nixe_exit_costs@.contains_key(id) && (find(f, order, id, false) is None
            || f.nixe_exit_costs@[id] > MAX_COST)
}

/// A result of type `ty` may be asked for as `constraint` says.
pub open spec fn constraint_allowed(arch: Arch, ty: Type, constraint: EntryConstraint) -> bool {
    constraint matches EntryConstraint::Register { index, vector } ==> arch.allows(
        ty,
        index,
        vector,
    )
}

/// All results may be asked for as their constraints say.
pub open spec fn constraints_allowed(
    f: Function,
    arch: Arch,
    entry: Inst,
    constraints: Seq<EntryConstraint>,
) -> bool {
    let results = f.insts@[entry.0 as int].results@;
    forall|k: int|
        0 <= k < results.len() && k < constraints.len() ==> constraint_allowed(
            arch,
            f.value_types@[results[k].0 as int],
            #[trigger] constraints[k],
        )
}

/// No register is asked for twice.
pub open spec fn disjoint(constraints: Seq<EntryConstraint>) -> bool {
    forall|k: int, l: int|
        0 <= k < l < constraints.len() && (#[trigger] constraints[k]) is Register ==> constraints[k]
            != #[trigger] constraints[l]
}

/// The constraints with a given identity break a rule on entries: they belong to
/// no entry, they are not one per result, one of them asks for a register that
/// cannot hold its result, or two ask for the same register.
pub open spec fn entry_breaks(
    f: Function,
    order: Seq<Inst>,
    arch: Arch,
    id: u64,
    rule: Violation,
) -> bool {
    let constraints = f.nixe_entry_constraints@[id]@;
    match rule {
        Violation::EntryMissing => find(f, order, id, true) is None,
        Violation::EntryCount => find(f, order, id, true) matches Some(entry)
            && f.insts@[entry.0 as int].results@.len() != constraints.len(),
        Violation::EntryRegister => find(f, order, id, true) matches Some(entry)
            && !constraints_allowed(f, arch, entry, constraints),
        Violation::EntryOverlap => !disjoint(constraints),
        _ => false,
    }
}

/// Some constraints break a rule on entries.
pub open spec fn bad_entry(f: Function, order: Seq<Inst>, arch: Arch, rule: Violation) -> bool {
    exists|id: u64| #[trigger]
        f.nixe_entry_constraints@.contains_key(id) && entry_breaks(f, order, arch, id, rule)
}

/// The rule that a fragment breaks, if it breaks one; the first in the order of
/// `Violation`, where the rules on fault spans count as one.
pub open spec fn first_violation(f: Function, isa: TargetIsa) -> Option<Violation> {
    let order = program(f);
    if !isa.nixe_abi && has_boundary(f, order) {
        Some(Violation::BoundaryAbi)
    } else if !isa.nixe_abi && has_charge(f, order) {
        Some(Violation::ChargeAbi)
    } else if bad_ids(f, order) {
        Some(Violation::BoundaryIds)
    } else if bad_charge(f, order) {
        Some(Violation::ChargeCost)
    } else if span_violation(f, f.blocks@.len()) is Some {
        span_violation(f, f.blocks@.len())
    } else if bad_comparison(f, order) {
        Some(Violation::Comparison)
    } else if bad_cost(f, order) {
        Some(Violation::Checkpoint)
    } else if bad_entry(f, order, isa.arch, Violation::EntryMissing) {
        Some(Violation::EntryMissing)
    } else if bad_entry(f, order, isa.arch, Violation::EntryCount) {
        Some(Violation::EntryCount)
    } else if bad_entry(f, order, isa.arch, Violation::EntryRegister) {
        Some(Violation::EntryRegister)
    } else if bad_entry(f, order, isa.arch, Violation::EntryOverlap) {
        Some(Violation::EntryOverlap)
    } else {
        None
    }
}

proof fn lemma_found_early(f: Function, order: Seq<Inst>, id: u64, entry: bool, count: int)
    requires
        0 <= count <= order.len(),
        find(f, order.take(count), id, entry) is Some,
    ensures
        find(f, order, id, entry) == find(f, order.take(count), id, entry),
    decreases order.len(),
{
    if count == order.len() {
        assert(order.take(count) =~= order);
    } else {
        assert(order.drop_last().take(count) =~= order.take(count));
        lemma_found_early(f, order.drop_last(), id, entry, count);
    }
}

pub(crate) fn find_named(f: &Function, order: &Vec<Inst>, id: u64, entry: bool) -> (found:
    Option<Inst>)
    requires
        listed(*f, order@),
    ensures
        found == find(*f, order@, id, entry),
        found matches Some(inst) ==> inst.0 < f.insts@.len(),
{
    let count: usize = order.len();
    let mut i: usize = 0;
    assert(order@.take(0) =~= Seq::empty());
    while i < count
        invariant
            i <= count,
            count == order@.len(),
            listed(*f, order@),
            find(*f, order@.take(i as int), id, entry) is None,
        decreases count - i,
    {
        let inst = order[i];
        assert(order@.take(i + 1).drop_last() =~= order@.take(i as int));
        let named = match f.insts[inst.0].data {
            InstructionData::NixeEntry { imm } => entry && imm_bits(imm) == id,
            InstructionData::NixeBoundary { opcode: Opcode::NixeExit, imm } => !entry && imm_bits(
                imm,
            ) == id,
            _ => false,
        };
        if named {
            proof {
                lemma_found_early(*f, order@, id, entry, i + 1);
            }
            return Some(inst);
        }
        i = i + 1;
    }
    assert(order@.take(i as int) =~= order@);
    None
}

fn allows_comparison(f: &Function, order: &Vec<Inst>, id: u64, c: ExitCompare) -> (allowed: bool)
    requires
        f.wf(),
        listed(*f, order@),
    ensures
        allowed == comparison_allowed(*f, order@, id, c),
{
    match find_named(f, order, id, false) {
        None => false,
        Some(exit) => {
            assert(f.inst_wf(f.insts@[exit.0 as int]));
            let args = &f.insts[exit.0].args;
            if c.lhs >= args.len() || c.rhs >= args.len() {
                return false;
            }
            let lhs = f.value_types[args[c.lhs].0];
            let rhs = f.value_types[args[c.rhs].0];
            lhs == rhs && (lhs == Type::I32 || lhs == Type::I64)
        },
    }
}

fn find_bad_comparison(f: &Function, order: &Vec<Inst>) -> (found: bool)
    requires
        f.wf(),
        listed(*f, order@),
    ensures
        found == bad_comparison(*f, order@),
{
    let keys = keys_of(&f.nixe_exit_compares);
    let count: usize = keys.len();
    let mut i: usize = 0;
    while i < count
        invariant
            i <= count,
            count == keys@.len(),
            f.wf(),
            listed(*f, order@),
            forall|key: u64| #[trigger]
                f.nixe_exit_compares@.contains_key(key) <==> keys@.contains(key),
            forall|j: int|
                0 <= j < i ==> comparison_allowed(
                    *f,
                    order@,
                    #[trigger] keys@[j],
                    f.nixe_exit_compares@[keys@[j]],
                ),
        decreases count - i,
    {
        let id = keys[i];
        assert(keys@.contains(id));
        assert(f.nixe_exit_compares@.contains_key(id));
        if let Some(c) = f.nixe_exit_compares.get(&id) {
            if !allows_comparison(f, order, id, *c) {
                return true;
            }
        }
        i = i + 1;
    }
    assert(!bad_comparison(*f, order@)) by {
        assert forall|id: u64| #[trigger]
            f.nixe_exit_compares@.contains_key(id) implies comparison_allowed(
            *f,
            order@,
            id,
            f.nixe_exit_compares@[id],
        ) by {
            let j = choose|j: int| 0 <= j < keys@.len() && keys@[j] == id;
            assert(keys@[j] == id);
        }
    }
    false
}

fn find_bad_cost(f: &Function, order: &Vec<Inst>) -> (found: bool)
    requires
        f.wf(),
        listed(*f, order@),
    ensures
        found == bad_cost(*f, order@),
{
    let keys = keys_of(&f.nixe_exit_costs);
    let count: usize = keys.len();
    let mut i: usize = 0;
    while i < count
        invariant
            i <= count,
            count == keys@.len(),
            f.wf(),
            listed(*f, order@),
            forall|key: u64| #[trigger]
                f.nixe_exit_costs@.contains_key(key) <==> keys@.contains(key),
            forall|j: int|
                0 <= j < i ==> find(*f, order@, #[trigger] keys@[j], false) is Some
                    && f.nixe_exit_costs@[keys@[j]] <= MAX_COST,
        decreases count - i,
    {
        let id = keys[i];
        assert(keys@.contains(id));
        assert(f.nixe_exit_costs@.contains_key(id));
        if let Some(cost) = f.nixe_exit_costs.get(&id) {
            if find_named(f, order, id, false).is_none() || *cost > MAX_COST {
                return true;
            }
        }
        i = i + 1;
    }
    assert(!bad_cost(*f, order@)) by {
        assert forall|id: u64| #[trigger] f.nixe_exit_costs@.contains_key(id) implies find(
            *f,
            order@,
            id,
            false,
        ) is Some && f.nixe_exit_costs@[id] <= MAX_COST by {
            let j = choose|j: int| 0 <= j < keys@.len() && keys@[j] == id;
            assert(keys@[j] == id);
        }
    }
    false
}

fn allows_constraints(
    f: &Function,
    arch: Arch,
    entry: Inst,
    constraints: &Vec<EntryConstraint>,
) -> (allowed: bool)
    requires
        f.wf(),
        entry.0 < f.insts@.len(),
    ensures
        allowed == constraints_allowed(*f, arch, entry, constraints@),
{
    assert(f.inst_wf(f.insts@[entry.0 as int]));
    let results = &f.insts[entry.0].results;
    let mut k: usize = 0;
    while k < results.len() && k < constraints.len()
        invariant
            k <= results@.len(),
            k <= constraints@.len(),
            results@ == f.insts@[entry.0 as int].results@,
            f.has_values(results@),
            forall|l: int|
                0 <= l < k ==> constraint_allowed(
                    arch,
                    f.value_types@[results@[l].0 as int],
                    #[trigger] constraints@[l],
                ),
        decreases results@.len() - k,
    {
        assert(results@[k as int].0 < f.value_types@.len());
        let ty = f.value_types[results[k].0];
        if let EntryConstraint::Register { index, vector } = constraints[k] {
            if !arch.allows_register(ty, index, vector) {
                assert(!constraint_allowed(arch, ty, constraints@[k as int]));
                return false;
            }
        }
        k = k + 1;
    }
    true
}

fn are_disjoint(constraints: &Vec<EntryConstraint>) -> (all: bool)
    ensures
        all == disjoint(constraints@),
{
    let count: usize = constraints.len();
    let mut l: usize = 0;
    while l < count
        invariant
            l <= count,
            count == constraints@.len(),
            forall|i: int, j: int|
                0 <= i < j < l && (#[trigger] constraints@[i]) is Register ==> constraints@[i]
                    != #[trigger] constraints@[j],
        decreases count - l,
    {
        let mut k: usize = 0;
        while k < l
            invariant
                k <= l < count,
                count == constraints@.len(),
                forall|i: int|
                    0 <= i < k && (#[trigger] constraints@[i]) is Register ==> constraints@[i]
                        != constraints@[l as int],
            decreases l - k,
        {
            if constraints[k] != EntryConstraint::Any && constraints[k] == constraints[l] {
                return false;
            }
            k = k + 1;
        }
        l = l + 1;
    }
    true
}

fn breaks_entry_rule(
    f: &Function,
    order: &Vec<Inst>,
    arch: Arch,
    id: u64,
    constraints: &Vec<EntryConstraint>,
    rule: Violation,
) -> (broken: bool)
    requires
        f.wf(),
        listed(*f, order@),
        *constraints == f.nixe_entry_constraints@[id],
    ensures
        broken == entry_breaks(*f, order@, arch, id, rule),
{
    let entry = find_named(f, order, id, true);
    match (rule, entry) {
        (Violation::EntryMissing, _) => entry.is_none(),
        (Violation::EntryCount, Some(entry)) => f.insts[entry.0].results.len() != constraints.len(),
        (Violation::EntryRegister, Some(entry)) => !allows_constraints(f, arch, entry, constraints),
        (Violation::EntryOverlap, _) => !are_disjoint(constraints),
        _ => false,
    }
}

fn find_bad_entry(f: &Function, order: &Vec<Inst>, arch: Arch, rule: Violation) -> (found: bool)
    requires
        f.wf(),
        listed(*f, order@),
    ensures
        found == bad_entry(*f, order@, arch, rule),
{
    let keys = keys_of(&f.nixe_entry_constraints);
    let count: usize = keys.len();
    let mut i: usize = 0;
    while i < count
        invariant
            i <= count,
            count == keys@.len(),
            f.wf(),
            listed(*f, order@),
            forall|key: u64| #[trigger]
                f.nixe_entry_constraints@.contains_key(key) <==> keys@.contains(key),
            forall|j: int|
                0 <= j < i ==> !entry_breaks(*f, order@, arch, #[trigger] keys@[j], rule),
        decreases count - i,
    {
        let id = keys[i];
        assert(keys@.contains(id));
        assert(f.nixe_entry_constraints@.contains_key(id));
        if let Some(constraints) = f.nixe_entry_constraints.get(&id) {
            if breaks_entry_rule(f, order, arch, id, constraints, rule) {
                return true;
            }
        }
        i = i + 1;
    }
    assert(!bad_entry(*f, order@, arch, rule)) by {
        assert forall|id: u64| #[trigger]
            f.nixe_entry_constraints@.contains_key(id) implies !entry_breaks(
            *f,
            order@,
            arch,
            id,
            rule,
        ) by {
            let j = choose|j: int| 0 <= j < keys@.len() && keys@[j] == id;
            assert(keys@[j] == id);
        }
    }
    false
}

fn check(f: &Function, isa: &TargetIsa) -> (violation: Option<Violation>)
    requires
        f.wf(),
    ensures
        violation == first_violation(*f, *isa),
{
    let order = flatten(f);
    if !isa.nixe_abi && find_boundary(f, &order) {
        return Some(Violation::BoundaryAbi);
    }
    if !isa.nixe_abi && find_charge(f, &order) {
        return Some(Violation::ChargeAbi);
    }
    if find_bad_ids(f, &order) {
        return Some(Violation::BoundaryIds);
    }
    if find_bad_charge(f, &order) {
        return Some(Violation::ChargeCost);
    }
    let violation = check_spans(f);
    if violation.is_some() {
        return violation;
    }
    if find_bad_comparison(f, &order) {
        return Some(Violation::Comparison);
    }
    if find_bad_cost(f, &order) {
        return Some(Violation::Checkpoint);
    }
    if find_bad_entry(f, &order, isa.arch, Violation::EntryMissing) {
        return Some(Violation::EntryMissing);
    }
    if find_bad_entry(f, &order, isa.arch, Violation::EntryCount) {
        return Some(Violation::EntryCount);
    }
    if find_bad_entry(f, &order, isa.arch, Violation::EntryRegister) {
        return Some(Violation::EntryRegister);
    }
    if find_bad_entry(f, &order, isa.arch, Violation::EntryOverlap) {
        return Some(Violation::EntryOverlap);
    }
    None
}

/// Refuses a fragment that breaks a rule of its boundaries.
pub fn validate(f: &Function, isa: &TargetIsa) -> (result: CodegenResult<()>)
    requires
        f.wf(),
    ensures
        match first_violation(*f, *isa) {
            None => result is Ok,
            Some(violation) => result is Err && result->Err_0.text() == "Nixe "@
                + violation.words(),
        },
{
    match check(f, isa) {
        None => Ok(()),
        Some(violation) => Err(violation.error()),
    }
}

/// The layout holds every instruction of every block.
pub proof fn lemma_layout_holds(f: Function, blocks: nat, b: int, k: int) -> (i: int)
    requires
        0 <= b < blocks,
        0 <= k < f.blocks@[b].insts@.len(),
    ensures
        0 <= i < layout(f, blocks).len(),
        layout(f, blocks)[i] == f.blocks@[b].insts@[k],
    decreases blocks,
{
    let before = layout(f, (blocks - 1) as nat);
    if b == blocks - 1 {
        before.len() + k
    } else {
        lemma_layout_holds(f, (blocks - 1) as nat, b, k)
    }
}

/// Every instruction of the layout stands in a block.
pub proof fn lemma_layout_comes_from(f: Function, blocks: nat, i: int) -> (place: (int, int))
    requires
        0 <= i < layout(f, blocks).len(),
    ensures
        0 <= place.0 < blocks,
        0 <= place.1 < f.blocks@[place.0].insts@.len(),
        layout(f, blocks)[i] == f.blocks@[place.0].insts@[place.1],
    decreases blocks,
{
    let before = layout(f, (blocks - 1) as nat);
    if i >= before.len() {
        (blocks - 1, i - before.len())
    } else {
        lemma_layout_comes_from(f, (blocks - 1) as nat, i)
    }
}

/// An entry or exit of the layout is found by its identity.
pub proof fn lemma_named_is_found(f: Function, order: Seq<Inst>, id: u64, entry: bool, i: int)
    requires
        0 <= i < order.len(),
        is_named(data_at(f, order, i), id, entry),
    ensures
        find(f, order, id, entry) is Some,
    decreases order.len(),
{
    if i < order.len() - 1 {
        lemma_named_is_found(f, order.drop_last(), id, entry, i);
    }
}

/// What is found by its identity stands in the layout.
pub proof fn lemma_found_is_named(f: Function, order: Seq<Inst>, id: u64, entry: bool) -> (i: int)
    requires
        find(f, order, id, entry) is Some,
    ensures
        0 <= i < order.len(),
        order[i] == find(f, order, id, entry)->Some_0,
        is_named(data_at(f, order, i), id, entry),
    decreases order.len(),
{
    if find(f, order.drop_last(), id, entry) is Some {
        lemma_found_is_named(f, order.drop_last(), id, entry)
    } else {
        order.len() - 1
    }
}

proof fn lemma_blocks_are_valid(f: Function, blocks: nat, b: int)
    requires
        0 <= b < blocks,
        span_violation(f, blocks) is None,
    ensures
        block_violation(f, b) is None,
    decreases blocks,
{
    if b < blocks - 1 {
        lemma_blocks_are_valid(f, (blocks - 1) as nat, b);
    }
}

proof fn lemma_open_span_was_begun(f: Function, insts: Seq<Inst>) -> (j: int)
    requires
        span_after(f, insts) is Ok,
        span_after(f, insts)->Ok_0 is Some,
    ensures
        0 <= j < insts.len(),
        f.insts@[insts[j].0 as int].data == (InstructionData::NixeBoundary {
            opcode: Opcode::NixeFaultStart,
            imm: span_after(f, insts)->Ok_0->Some_0.id,
        }),
    decreases insts.len(),
{
    if span_after(f, insts.drop_last())->Ok_0 is Some {
        lemma_open_span_was_begun(f, insts.drop_last())
    } else {
        insts.len() - 1
    }
}

/// Where no rule on fault spans is broken, the end of a span has its beginning.
pub proof fn lemma_span_end_has_begin(f: Function, i: int, imm: i64) -> (j: int)
    requires
        span_violation(f, f.blocks@.len()) is None,
        0 <= i < program(f).len(),
        data_at(f, program(f), i) == (InstructionData::NixeBoundary {
            opcode: Opcode::NixeFaultEnd,
            imm,
        }),
    ensures
        0 <= j < program(f).len(),
        data_at(f, program(f), j) == (InstructionData::NixeBoundary {
            opcode: Opcode::NixeFaultStart,
            imm,
        }),
{
    let (b, k) = lemma_layout_comes_from(f, f.blocks@.len(), i);
    let insts = f.blocks@[b].insts@;
    lemma_blocks_are_valid(f, f.blocks@.len(), b);
    if span_after(f, insts.take(k + 1)) is Err {
        lemma_span_stays_broken(f, insts, k + 1);
    }
    assert(insts.take(k + 1).drop_last() =~= insts.take(k));
    let begin = lemma_open_span_was_begun(f, insts.take(k));
    lemma_layout_holds(f, f.blocks@.len(), b, begin)
}

} // verus!
