//! Boundary operands on the machine level, before and after allocation.

use vstd::pervasive::unreached;
use vstd::prelude::*;

use crate::buffer::MachBuffer;
use crate::frame::FrameLayout;
use crate::reg::{OperandConstraint, OperandKind, OperandPos, OperandVisitor, PReg, Reg, RegClass};
use crate::reg::REGS_PER_CLASS;
use crate::state_map::{EntryConstraint, ExitCompare, LocatedValue, Location, PollCheckpoint};
use crate::state_map::StateMap;
use crate::types::Type;

verus! {

/// An operand of a boundary.
#[derive(Clone, Copy, Debug)]
pub enum BoundaryValue {
    /// An entry result that nothing uses.
    Unused,
    /// A value that the allocator places.
    Register(Reg),
    /// The low and high words of a literal.
    Constant([u64; 2]),
}

/// Machine-level boundary operands. Obtained by lowering boundary instructions.
#[derive(Clone, Debug)]
pub struct Boundary {
    /// Caller-supplied identity; zero for a charge.
    pub id: u64,
    /// The values are defined here, all at once.
    pub entry: bool,
    /// Control leaves here.
    pub exit: bool,
    /// Control may leave here.
    pub check: bool,
    /// Work to subtract before an exit, with a deadline path.
    pub poll_cost: Option<u16>,
    /// Work to subtract and nothing else.
    pub charge: Option<u16>,
    /// The operands whose difference sets the flags.
    pub compare: Option<ExitCompare>,
    /// How long the values outlive a faulting instruction.
    pub fault_pos: OperandPos,
    /// The operands with their types, in the caller's order.
    pub values: Vec<(BoundaryValue, Type)>,
    /// The constraints of entry results, by position.
    pub entry_constraints: Vec<EntryConstraint>,
}

/// What the allocator is asked for one operand of a boundary.
#[derive(Clone, Copy, Debug, PartialEq, Eq, Structural)]
pub struct OperandRequest {
    /// Position of the operand in the boundary.
    pub index: usize,
    pub constraint: OperandConstraint,
    pub kind: OperandKind,
    pub pos: OperandPos,
}

/// The state of a visitor, and the operands as it has left them.
pub open spec fn visit<V: OperandVisitor>(
    state: V::State,
    values: Seq<(BoundaryValue, Type)>,
    plan: Seq<OperandRequest>,
) -> (V::State, Seq<(BoundaryValue, Type)>)
    decreases plan.len(),
{
    if plan.len() == 0 {
        (state, values)
    } else {
        let (state, values) = visit::<V>(state, values, plan.drop_last());
        let r = plan.last();
        let (value, ty) = values[r.index as int];
        match value {
            BoundaryValue::Register(reg) => (
                V::seen(state, reg, r.constraint, r.kind, r.pos),
                values.update(
                    r.index as int,
                    (
                        BoundaryValue::Register(
                            V::rewritten(state, reg, r.constraint, r.kind, r.pos),
                        ),
                        ty,
                    ),
                ),
            ),
            _ => (state, values),
        }
    }
}

/// The visitor accepts every operand of the plan when its turn comes.
pub open spec fn accepts<V: OperandVisitor>(
    state: V::State,
    values: Seq<(BoundaryValue, Type)>,
    plan: Seq<OperandRequest>,
) -> bool
    decreases plan.len(),
{
    plan.len() == 0 || {
        let (before, left) = visit::<V>(state, values, plan.drop_last());
        let r = plan.last();
        &&& accepts::<V>(state, values, plan.drop_last())
        &&& left[r.index as int].0 matches BoundaryValue::Register(reg) ==> V::accepts(
            before,
            reg,
            r.constraint,
            r.kind,
            r.pos,
        )
    }
}

proof fn lemma_visit_concat<V: OperandVisitor>(
    state: V::State,
    values: Seq<(BoundaryValue, Type)>,
    first: Seq<OperandRequest>,
    second: Seq<OperandRequest>,
)
    ensures
        ({
            let (middle, left) = visit::<V>(state, values, first);
            &&& visit::<V>(state, values, first + second) == visit::<V>(middle, left, second)
            &&& accepts::<V>(state, values, first + second) == (accepts::<V>(state, values, first)
                && accepts::<V>(middle, left, second))
        }),
    decreases second.len(),
{
    if second.len() == 0 {
        assert(first + second =~= first);
    } else {
        lemma_visit_concat::<V>(state, values, first, second.drop_last());
        assert((first + second).drop_last() =~= first + second.drop_last());
        assert((first + second).last() == second.last());
    }
}

/// Whatever the visitor, a visit changes registers and nothing else: operands keep
/// their number, order and types, and what is in no register stays as it is.
pub proof fn lemma_visit_keeps_kinds<V: OperandVisitor>(
    state: V::State,
    values: Seq<(BoundaryValue, Type)>,
    plan: Seq<OperandRequest>,
)
    requires
        forall|j: int| 0 <= j < plan.len() ==> (#[trigger] plan[j]).index < values.len(),
    ensures
        ({
            let after = visit::<V>(state, values, plan).1;
            &&& after.len() == values.len()
            &&& forall|i: int|
                0 <= i < values.len() ==> (#[trigger] after[i]).1 == values[i].1
                    && (after[i].0 is Register <==> values[i].0 is Register)
                    && (!(values[i].0 is Register) ==> after[i].0 == values[i].0)
        }),
    decreases plan.len(),
{
    if plan.len() > 0 {
        assert forall|j: int| 0 <= j < plan.drop_last().len() implies (#[trigger] plan.drop_last()[j]).index
            < values.len() by {
            assert(plan.drop_last()[j] == plan[j]);
        }
        lemma_visit_keeps_kinds::<V>(state, values, plan.drop_last());
    }
}

impl Boundary {
    /// The operand takes part in the exit comparison.
    pub open spec fn compared(self, index: int) -> bool {
        self.compare matches Some(c) && (index == c.lhs || index == c.rhs)
    }

    /// The constraint that the caller put on an entry result.
    pub open spec fn entry_constraint(self, index: int) -> EntryConstraint {
        if 0 <= index < self.entry_constraints@.len() {
            self.entry_constraints@[index]
        } else {
            EntryConstraint::Any
        }
    }

    /// Where the allocator may place an operand: where the caller asks, in a
    /// register if it is compared, anywhere otherwise.
    pub open spec fn constraint(self, index: int) -> OperandConstraint {
        match self.entry_constraint(index) {
            EntryConstraint::Any => if self.compared(index) {
                OperandConstraint::Reg
            } else {
                OperandConstraint::Any
            },
            EntryConstraint::Register { index, vector } => OperandConstraint::FixedReg(
                PReg::of(index as int, bank_class(vector)),
            ),
        }
    }

    /// What the allocator is asked for an operand.
    pub open spec fn request(self, index: int) -> OperandRequest {
        OperandRequest {
            index: index as usize,
            constraint: self.constraint(index),
            kind: if self.entry {
                OperandKind::Def
            } else {
                OperandKind::Use
            },
            pos: if self.entry {
                OperandPos::Late
            } else {
                OperandPos::Early
            },
        }
    }

    /// The requests for those of the first `count` operands that need a place
    /// and are compared, or are not.
    pub open spec fn requests(self, compared: bool, count: nat) -> Seq<OperandRequest>
        decreases count,
    {
        if count == 0 {
            Seq::empty()
        } else {
            let before = self.requests(compared, (count - 1) as nat);
            if self.values@[count - 1].0 is Register && self.compared(count - 1) == compared {
                before.push(self.request(count - 1))
            } else {
                before
            }
        }
    }

    /// All requests: compared operands have the first choice of registers, and
    /// within each group the caller's order is kept.
    pub open spec fn plan(self) -> Seq<OperandRequest> {
        self.requests(true, self.values@.len()) + self.requests(false, self.values@.len())
    }

    /// The requests for the first `count` operands of a faulting instruction.
    pub open spec fn fault_requests(self, count: nat) -> Seq<OperandRequest>
        decreases count,
    {
        if count == 0 {
            Seq::empty()
        } else {
            let before = self.fault_requests((count - 1) as nat);
            if self.values@[count - 1].0 is Register {
                before.push(
                    OperandRequest {
                        index: (count - 1) as usize,
                        constraint: OperandConstraint::Any,
                        kind: OperandKind::Use,
                        pos: self.fault_pos,
                    },
                )
            } else {
                before
            }
        }
    }

    /// Every register that the caller asks for has a valid encoding.
    pub open spec fn constraints_encodable(self) -> bool {
        forall|i: int|
            0 <= i < self.values@.len() && (#[trigger] self.values@[i]).0 is Register ==> (
            self.entry_constraint(i) matches EntryConstraint::Register { index, .. } ==> index
                < REGS_PER_CLASS)
    }

    /// The same boundary but for its operands.
    pub open spec fn same_but_values(self, other: Boundary) -> bool {
        &&& self.id == other.id
        &&& self.entry == other.entry
        &&& self.exit == other.exit
        &&& self.check == other.check
        &&& self.poll_cost == other.poll_cost
        &&& self.charge == other.charge
        &&& self.compare == other.compare
        &&& self.fault_pos == other.fault_pos
        &&& self.entry_constraints == other.entry_constraints
    }

    proof fn lemma_requests(self, compared: bool, count: nat)
        requires
            count <= self.values@.len() <= usize::MAX,
        ensures
            self.requests(compared, count).len() <= count,
            forall|j: int|
                0 <= j < self.requests(compared, count).len() ==> (#[trigger] self.requests(
                    compared,
                    count,
                )[j]).index < count,
        decreases count,
    {
        if count > 0 {
            self.lemma_requests(compared, (count - 1) as nat);
        }
    }

    proof fn lemma_requests_prefix(self, compared: bool, count: nat, total: nat)
        requires
            count <= total,
        ensures
            exists|rest: Seq<OperandRequest>|
                self.requests(compared, total) == #[trigger] (self.requests(compared, count) + rest),
        decreases total,
    {
        let short = self.requests(compared, count);
        let long = self.requests(compared, total);
        if count < total {
            self.lemma_requests_prefix(compared, count, (total - 1) as nat);
            let middle = self.requests(compared, (total - 1) as nat);
            let rest = choose|rest: Seq<OperandRequest>| middle == #[trigger] (short + rest);
            if long != middle {
                assert(long =~= short + rest.push(self.request(total - 1)));
            } else {
                assert(long == short + rest);
            }
        } else {
            assert(long =~= short + Seq::<OperandRequest>::empty());
        }
    }

    proof fn lemma_requests_by_kind(self, other: Boundary, compared: bool, count: nat)
        requires
            self.same_but_values(other),
            self.values@.len() == other.values@.len(),
            count <= self.values@.len(),
            forall|i: int|
                0 <= i < self.values@.len() ==> ((#[trigger] self.values@[i]).0 is Register
                    <==> other.values@[i].0 is Register),
        ensures
            self.requests(compared, count) == other.requests(compared, count),
        decreases count,
    {
        if count > 0 {
            self.lemma_requests_by_kind(other, compared, (count - 1) as nat);
            assert(self.request(count - 1) == other.request(count - 1));
            let _ = self.values@[count - 1];
        }
    }
}

impl Boundary {
    /// The operand takes part in the exit comparison.
    fn is_compared(&self, index: usize) -> (compared: bool)
        ensures
            compared == self.compared(index as int),
    {
        match self.compare {
            Some(c) => index == c.lhs || index == c.rhs,
            None => false,
        }
    }

    /// Where the allocator may place an operand.
    fn operand_constraint(&self, index: usize) -> (constraint: OperandConstraint)
        requires
            self.constraints_encodable(),
            index < self.values@.len(),
            self.values@[index as int].0 is Register,
        ensures
            constraint == self.constraint(index as int),
    {
        let wanted = if index < self.entry_constraints.len() {
            self.entry_constraints[index]
        } else {
            EntryConstraint::Any
        };
        match wanted {
            EntryConstraint::Any => if self.is_compared(index) {
                OperandConstraint::Reg
            } else {
                OperandConstraint::Any
            },
            EntryConstraint::Register { index, vector } => {
                let class = if vector {
                    RegClass::Float
                } else {
                    RegClass::Int
                };
                OperandConstraint::FixedReg(PReg::new(index as usize, class))
            },
        }
    }

    /// Shows one operand to the visitor, if it needs a place.
    fn visit_operand<V: OperandVisitor>(
        &mut self,
        collector: &mut V,
        index: usize,
        constraint: OperandConstraint,
        kind: OperandKind,
        pos: OperandPos,
    )
        requires
            index < old(self).values@.len(),
            old(self).values@[index as int].0 matches BoundaryValue::Register(reg) ==> V::accepts(
                old(collector).state(),
                reg,
                constraint,
                kind,
                pos,
            ),
        ensures
            final(self).same_but_values(*old(self)),
            (final(collector).state(), final(self).values@) == visit::<V>(
                old(collector).state(),
                old(self).values@,
                seq![OperandRequest { index, constraint, kind, pos }],
            ),
    {
        let ghost plan = seq![OperandRequest { index, constraint, kind, pos }];
        proof {
            assert(plan.drop_last() =~= Seq::empty());
            reveal_with_fuel(visit, 2);
        }
        let (value, ty) = self.values[index];
        if let BoundaryValue::Register(reg) = value {
            let mut reg = reg;
            collector.add_operand(&mut reg, constraint, kind, pos);
            self.values.set(index, (BoundaryValue::Register(reg), ty));
        }
    }

    /// Shows the operands that need a place to `collector`. Mandatory register
    /// uses get the first choice, before single-pass allocation places flexible
    /// map-only values in the remaining registers.
    pub fn operands<V: OperandVisitor>(&mut self, collector: &mut V)
        requires
            old(self).constraints_encodable(),
            accepts::<V>(old(collector).state(), old(self).values@, old(self).plan()),
        ensures
            final(self).same_but_values(*old(self)),
            (final(collector).state(), final(self).values@) == visit::<V>(
                old(collector).state(),
                old(self).values@,
                old(self).plan(),
            ),
    {
        let ghost n = self.values@.len();
        let ghost first = self.requests(true, n);
        let ghost second = self.requests(false, n);
        let count: usize = self.values.len();
        proof {
            lemma_visit_concat::<V>(collector.state(), self.values@, first, second);
            self.lemma_requests(true, n);
            lemma_visit_keeps_kinds::<V>(collector.state(), self.values@, first);
        }
        self.visit_group(collector, true);
        proof {
            self.lemma_requests_by_kind(*old(self), false, n);
        }
        self.visit_group(collector, false);
    }

    /// Shows the compared operands, or the others, to the visitor.
    fn visit_group<V: OperandVisitor>(&mut self, collector: &mut V, compared: bool)
        requires
            old(self).constraints_encodable(),
            accepts::<V>(
                old(collector).state(),
                old(self).values@,
                old(self).requests(compared, old(self).values@.len()),
            ),
        ensures
            final(self).same_but_values(*old(self)),
            (final(collector).state(), final(self).values@) == visit::<V>(
                old(collector).state(),
                old(self).values@,
                old(self).requests(compared, old(self).values@.len()),
            ),
    {
        let ghost state = collector.state();
        let ghost values = self.values@;
        let count: usize = self.values.len();
        let mut index: usize = 0;
        while index < count
            invariant
                index <= count,
                count == values.len(),
                values == old(self).values@,
                self.values@.len() == count,
                self.same_but_values(*old(self)),
                old(self).constraints_encodable(),
                accepts::<V>(state, values, old(self).requests(compared, count as nat)),
                (collector.state(), self.values@) == visit::<V>(
                    state,
                    values,
                    old(self).requests(compared, index as nat),
                ),
            decreases count - index,
        {
            let ghost done = old(self).requests(compared, index as nat);
            proof {
                old(self).lemma_requests(compared, index as nat);
                lemma_visit_keeps_kinds::<V>(state, values, done);
                let _ = values[index as int];
                assert(self.constraints_encodable());
            }
            let registered = match self.values[index].0 {
                BoundaryValue::Register(_) => true,
                _ => false,
            };
            if registered && self.is_compared(index) == compared {
                let constraint = self.operand_constraint(index);
                let (kind, pos) = if self.entry {
                    (OperandKind::Def, OperandPos::Late)
                } else {
                    (OperandKind::Use, OperandPos::Early)
                };
                let ghost next = OperandRequest { index, constraint, kind, pos };
                proof {
                    assert(next == old(self).request(index as int));
                    assert(done.push(next) =~= done + seq![next]);
                    old(self).lemma_requests_prefix(compared, (index + 1) as nat, count as nat);
                    let rest = choose|rest: Seq<OperandRequest>|
                        old(self).requests(compared, count as nat) == #[trigger] (old(self).requests(compared, (index + 1) as nat) + rest);
                    lemma_visit_concat::<V>(state, values, done.push(next), rest);
                    lemma_visit_concat::<V>(state, values, done, seq![next]);
                    assert(done.push(next).drop_last() =~= done);
                }
                self.visit_operand(collector, index, constraint, kind, pos);
            }
            index = index + 1;
        }
    }
}

impl Boundary {
    proof fn lemma_fault_requests(self, count: nat)
        requires
            count <= self.values@.len() <= usize::MAX,
        ensures
            forall|j: int|
                0 <= j < self.fault_requests(count).len() ==> (#[trigger] self.fault_requests(
                    count,
                )[j]).index < count,
        decreases count,
    {
        if count > 0 {
            self.lemma_fault_requests((count - 1) as nat);
        }
    }

    proof fn lemma_fault_requests_prefix(self, count: nat, total: nat)
        requires
            count <= total,
        ensures
            exists|rest: Seq<OperandRequest>|
                self.fault_requests(total) == #[trigger] (self.fault_requests(count) + rest),
        decreases total,
    {
        let short = self.fault_requests(count);
        let long = self.fault_requests(total);
        if count < total {
            self.lemma_fault_requests_prefix(count, (total - 1) as nat);
            let middle = self.fault_requests((total - 1) as nat);
            let rest = choose|rest: Seq<OperandRequest>| middle == #[trigger] (short + rest);
            if long != middle {
                assert(long =~= short + rest.push(long.last()));
            } else {
                assert(long == short + rest);
            }
        } else {
            assert(long =~= short + Seq::<OperandRequest>::empty());
        }
    }

    /// No operand is an unused entry result.
    pub open spec fn all_used(self) -> bool {
        forall|i: int| 0 <= i < self.values@.len() ==> !((#[trigger] self.values@[i]).0 is Unused)
    }

    /// Shows the operands to `collector` as uses of a faulting instruction. A
    /// precise single memory instruction faults before its definitions; a
    /// compound operation may have already written intermediate results, so it
    /// must preserve these values through every definition.
    pub fn fault_operands<V: OperandVisitor>(&mut self, collector: &mut V)
        requires
            old(self).all_used(),
            accepts::<V>(
                old(collector).state(),
                old(self).values@,
                old(self).fault_requests(old(self).values@.len()),
            ),
        ensures
            final(self).same_but_values(*old(self)),
            (final(collector).state(), final(self).values@) == visit::<V>(
                old(collector).state(),
                old(self).values@,
                old(self).fault_requests(old(self).values@.len()),
            ),
    {
        let ghost state = collector.state();
        let ghost values = self.values@;
        let count: usize = self.values.len();
        let mut index: usize = 0;
        while index < count
            invariant
                index <= count,
                count == values.len(),
                values == old(self).values@,
                self.values@.len() == count,
                self.same_but_values(*old(self)),
                accepts::<V>(state, values, old(self).fault_requests(count as nat)),
                (collector.state(), self.values@) == visit::<V>(
                    state,
                    values,
                    old(self).fault_requests(index as nat),
                ),
            decreases count - index,
        {
            let ghost done = old(self).fault_requests(index as nat);
            proof {
                old(self).lemma_fault_requests(index as nat);
                lemma_visit_keeps_kinds::<V>(state, values, done);
                let _ = values[index as int];
            }
            if let BoundaryValue::Register(_) = self.values[index].0 {
                let pos = self.fault_pos;
                let ghost next = OperandRequest {
                    index,
                    constraint: OperandConstraint::Any,
                    kind: OperandKind::Use,
                    pos,
                };
                proof {
                    assert(done.push(next) =~= done + seq![next]);
                    assert(old(self).fault_requests((index + 1) as nat) == done.push(next));
                    old(self).lemma_fault_requests_prefix((index + 1) as nat, count as nat);
                    let rest = choose|rest: Seq<OperandRequest>|
                        old(self).fault_requests(count as nat) == #[trigger] (old(self).fault_requests((index + 1) as nat) + rest);
                    lemma_visit_concat::<V>(state, values, done.push(next), rest);
                    lemma_visit_concat::<V>(state, values, done, seq![next]);
                    assert(done.push(next).drop_last() =~= done);
                }
                self.visit_operand(
                    collector,
                    index,
                    OperandConstraint::Any,
                    OperandKind::Use,
                    pos,
                );
            }
            index = index + 1;
        }
    }

    /// The location that an operand is reported at.
    pub open spec fn location(frame: FrameLayout, value: BoundaryValue) -> Location {
        match value {
            BoundaryValue::Unused => Location::Unused,
            BoundaryValue::Constant(bits) => Location::Constant(bits),
            BoundaryValue::Register(Reg::Spill { slot }) => Location::Spill {
                offset: (frame.transfer_bytes + frame.slot_offset(slot)) as u32,
            },
            BoundaryValue::Register(Reg::Real(preg)) => Location::Register {
                index: preg.encoding() as u8,
                vector: preg.class_code() == RegClass::Float.code(),
            },
            BoundaryValue::Register(Reg::Virtual { .. }) => arbitrary(),
        }
    }

    /// Every operand that needs a place has one, inside the frame if spilled.
    pub open spec fn placed(self, frame: FrameLayout) -> bool {
        forall|i: int|
            0 <= i < self.values@.len() ==> match (#[trigger] self.values@[i]).0 {
                BoundaryValue::Register(Reg::Virtual { .. }) => false,
                BoundaryValue::Register(Reg::Real(preg)) => preg.wf(),
                BoundaryValue::Register(Reg::Spill { slot }) => frame.holds(
                    slot,
                    self.values@[i].1.width() as int / 8,
                ),
                _ => true,
            }
    }

    /// The operands with their final locations, in the caller's order.
    pub open spec fn located(self, frame: FrameLayout) -> Seq<LocatedValue> {
        Seq::new(
            self.values@.len(),
            |i: int|
                LocatedValue {
                    ty: self.values@[i].1,
                    location: Boundary::location(frame, self.values@[i].0),
                },
        )
    }

    /// The operands with their final locations, in the caller's order.
    pub fn locations(&self, frame: &FrameLayout) -> (located: Vec<LocatedValue>)
        requires
            self.placed(*frame),
        ensures
            located@ == self.located(*frame),
    {
        let mut located: Vec<LocatedValue> = Vec::new();
        let mut index: usize = 0;
        while index < self.values.len()
            invariant
                index <= self.values@.len(),
                self.placed(*frame),
                located@ == self.located(*frame).take(index as int),
            decreases self.values@.len() - index,
        {
            let (value, ty) = self.values[index];
            assert(self.values@[index as int] == (value, ty));
            let location = match value {
                BoundaryValue::Unused => Location::Unused,
                BoundaryValue::Constant(bits) => Location::Constant(bits),
                BoundaryValue::Register(reg) => match reg.to_spillslot() {
                    Some(slot) => Location::Spill {
                        offset: frame.transfer_bytes + frame.spillslot_offset(slot) as u32,
                    },
                    None => match reg.to_real_reg() {
                        Some(preg) => {
                            let float = match preg.class() {
                                RegClass::Float => true,
                                _ => false,
                            };
                            Location::Register { index: preg.hw_enc(), vector: float }
                        },
                        None => unreached(),
                    },
                },
            };
            located.push(LocatedValue { ty, location });
            index = index + 1;
            assert(located@ =~= self.located(*frame).take(index as int));
        }
        assert(self.located(*frame).take(index as int) =~= self.located(*frame));
        located
    }

    /// `map` describes the values of a faulting instruction; its offset and
    /// length are filled in when the instruction is emitted.
    pub open spec fn is_fault_map(self, map: StateMap, frame: FrameLayout) -> bool {
        &&& map.id == self.id
        &&& map.offset == 0
        &&& !map.entry
        &&& map.patch_bytes == 0
        &&& map.fault_bytes == 0
        &&& map.poll is None
        &&& !map.subtract_flags
        &&& map.values@ == self.located(frame)
    }

    /// The map of a faulting instruction, without its offset and length.
    pub fn fault_map(&self, frame: &FrameLayout) -> (map: StateMap)
        requires
            self.placed(*frame),
        ensures
            self.is_fault_map(map, *frame),
    {
        StateMap {
            id: self.id,
            offset: 0,
            entry: false,
            patch_bytes: 0,
            fault_bytes: 0,
            poll: None,
            subtract_flags: false,
            values: self.locations(frame),
        }
    }

    /// The distance from an exit patch to its deadline patch. Each path has its
    /// own compare immediately before its patch; a compare with its alignment
    /// occupies one additional patch width.
    pub open spec fn poll_distance(self, patch_bytes: u8) -> int {
        if self.compare is Some {
            2 * patch_bytes
        } else {
            patch_bytes as int
        }
    }

    /// `map` describes the boundary, emitted at `offset` with patch units of
    /// `patch_bytes` bytes.
    pub open spec fn is_state_map(
        self,
        map: StateMap,
        frame: FrameLayout,
        offset: int,
        patch_bytes: u8,
    ) -> bool {
        &&& map.id == self.id
        &&& map.offset == offset
        &&& map.entry == self.entry
        &&& map.patch_bytes == (if self.exit || self.check {
            patch_bytes
        } else {
            0
        })
        &&& map.fault_bytes == 0
        &&& match self.poll_cost {
            Some(cost) => map.poll == Some(
                PollCheckpoint {
                    offset: (offset + self.poll_distance(patch_bytes)) as u32,
                    completed: cost,
                },
            ),
            None => map.poll is None,
        }
        &&& map.subtract_flags == (self.compare is Some)
        &&& map.values@ == self.located(frame)
    }

    /// Records the map of the boundary at the current offset.
    pub fn record(&self, sink: &mut MachBuffer, frame: &FrameLayout, patch_bytes: u8)
        requires
            self.placed(*frame),
            old(sink).code@.len() <= u32::MAX,
            self.poll_cost is Some ==> old(sink).code@.len() + self.poll_distance(patch_bytes)
                <= u32::MAX,
        ensures
            final(sink).code@ == old(sink).code@,
            final(sink).nixe_faults@ == old(sink).nixe_faults@,
            final(sink).nixe_states@.len() == old(sink).nixe_states@.len() + 1,
            final(sink).nixe_states@.drop_last() == old(sink).nixe_states@,
            self.is_state_map(
                final(sink).nixe_states@.last(),
                *frame,
                old(sink).code@.len() as int,
                patch_bytes,
            ),
    {
        let offset = sink.cur_offset();
        let poll = match self.poll_cost {
            Some(completed) => {
                let widths: u32 = if self.compare.is_some() {
                    2
                } else {
                    1
                };
                Some(PollCheckpoint { offset: offset + patch_bytes as u32 * widths, completed })
            },
            None => None,
        };
        let map = StateMap {
            id: self.id,
            offset,
            entry: self.entry,
            patch_bytes: if self.exit || self.check {
                patch_bytes
            } else {
                0
            },
            fault_bytes: 0,
            poll,
            subtract_flags: self.compare.is_some(),
            values: self.locations(frame),
        };
        sink.push_nixe_state(map);
        assert(sink.nixe_states@.drop_last() =~= old(sink).nixe_states@);
    }

    /// The compared operands are in physical registers.
    pub open spec fn comparable(self) -> bool {
        self.compare matches Some(c) ==> {
            &&& c.lhs < self.values@.len()
            &&& c.rhs < self.values@.len()
            &&& self.values@[c.lhs as int].0 matches BoundaryValue::Register(Reg::Real(_))
            &&& self.values@[c.rhs as int].0 matches BoundaryValue::Register(Reg::Real(_))
        }
    }

    /// Physical compare operands after allocation, with their type. Register
    /// constraints keep the fused terminal free of scratch registers and late
    /// spill reloads.
    pub fn comparison(&self) -> (comparison: Option<(Reg, Reg, Type)>)
        requires
            self.comparable(),
        ensures
            match self.compare {
                None => comparison is None,
                Some(c) => {
                    &&& comparison matches Some((lhs, rhs, ty))
                    &&& self.values@[c.lhs as int] == (BoundaryValue::Register(lhs), ty)
                    &&& self.values@[c.rhs as int].0 == BoundaryValue::Register(rhs)
                },
            },
    {
        match self.compare {
            None => None,
            Some(c) => {
                let (lhs, ty) = self.values[c.lhs];
                let (rhs, _) = self.values[c.rhs];
                match (lhs, rhs) {
                    (BoundaryValue::Register(lhs), BoundaryValue::Register(rhs)) => Some(
                        (lhs, rhs, ty),
                    ),
                    _ => unreached(),
                }
            },
        }
    }
}

/// The register class of a register bank.
pub open spec fn bank_class(vector: bool) -> RegClass {
    if vector {
        RegClass::Float
    } else {
        RegClass::Int
    }
}

} // verus!
