//! Registers, operand constraints and the two visits that boundary operands get:
//! one that collects them for the allocator, one that reads back its answer.
//!
//! Register and operand encodings are those of the register allocator.

use vstd::prelude::*;

verus! {

/// A register class of the allocator.
#[derive(Clone, Copy, Debug, PartialEq, Eq, Hash, Structural)]
pub enum RegClass {
    Int,
    Float,
    Vector,
}

impl RegClass {
    /// The number of the class in the allocator's encodings.
    pub open spec fn code(self) -> int {
        match self {
            RegClass::Int => 0,
            RegClass::Float => 1,
            RegClass::Vector => 2,
        }
    }
}

/// A physical register, by its index in the space shared by all classes.
#[derive(Clone, Copy, Debug, PartialEq, Eq, Hash, Structural)]
pub struct PReg {
    pub index: usize,
}

/// How many registers a class has at most.
pub const REGS_PER_CLASS: usize = 64;

/// How many virtual registers there are at most.
pub const MAX_VREGS: usize = 0x4000_0000;

/// The index of a physical register, by `regalloc2::PReg::new` and
/// `regalloc2::PReg::index`. Claimed: the class is the part above the low six
/// bits, and the hardware encoding is the low six bits.
#[verifier::external_body]
fn preg_index(hw_enc: usize, class: RegClass) -> (index: usize)
    requires
        hw_enc < REGS_PER_CLASS,
    ensures
        index == class.code() * 64 + hw_enc,
{
    let class = match class {
        RegClass::Int => regalloc2::RegClass::Int,
        RegClass::Float => regalloc2::RegClass::Float,
        RegClass::Vector => regalloc2::RegClass::Vector,
    };
    regalloc2::PReg::new(hw_enc, class).index()
}

/// The hardware encoding of the physical register with a given index, by
/// `regalloc2::PReg::hw_enc` on `regalloc2::PReg::from_index`. Claimed: it is
/// the low six bits of the index.
#[verifier::external_body]
fn preg_hw_enc(index: usize) -> (hw_enc: usize)
    requires
        index < 192,
    ensures
        hw_enc == index % 64,
{
    regalloc2::PReg::from_index(index).hw_enc()
}

/// The class of the physical register with a given index, by
/// `regalloc2::PReg::class` on `regalloc2::PReg::from_index`. Claimed: it is the
/// part of the index above the low six bits.
#[verifier::external_body]
fn preg_class(index: usize) -> (class: RegClass)
    requires
        index < 192,
    ensures
        class.code() == index as int / 64,
{
    match regalloc2::PReg::from_index(index).class() {
        regalloc2::RegClass::Int => RegClass::Int,
        regalloc2::RegClass::Float => RegClass::Float,
        regalloc2::RegClass::Vector => RegClass::Vector,
    }
}

impl PReg {
    /// The index belongs to one of the three classes.
    pub open spec fn wf(self) -> bool {
        self.index < 192
    }

    /// The hardware encoding within the class.
    pub open spec fn encoding(self) -> int {
        self.index as int % 64
    }

    /// The number of the class.
    pub open spec fn class_code(self) -> int {
        self.index as int / 64
    }

    /// The register of a class with a hardware encoding.
    pub open spec fn of(hw_enc: int, class: RegClass) -> PReg {
        PReg { index: (class.code() * 64 + hw_enc) as usize }
    }

    /// The register of a class with a hardware encoding.
    pub fn new(hw_enc: usize, class: RegClass) -> (preg: PReg)
        requires
            hw_enc < REGS_PER_CLASS,
        ensures
            preg == PReg::of(hw_enc as int, class),
            preg.wf(),
            preg.encoding() == hw_enc,
            preg.class_code() == class.code(),
    {
        PReg { index: preg_index(hw_enc, class) }
    }

    /// The hardware encoding within the class.
    pub fn hw_enc(self) -> (hw_enc: u8)
        requires
            self.wf(),
        ensures
            hw_enc == self.encoding(),
    {
        preg_hw_enc(self.index) as u8
    }

    /// The class.
    pub fn class(self) -> (class: RegClass)
        requires
            self.wf(),
        ensures
            class.code() == self.class_code(),
    {
        preg_class(self.index)
    }
}

/// Where a value is: in a virtual register before allocation, in a physical
/// register or a spill slot after it.
#[derive(Clone, Copy, Debug, PartialEq, Eq, Hash, Structural)]
pub enum Reg {
    Virtual { index: usize, class: RegClass },
    Real(PReg),
    Spill { slot: u32 },
}

impl Reg {
    /// The spill slot, if the value is in one.
    pub fn to_spillslot(self) -> (slot: Option<u32>)
        ensures
            slot == (match self {
                Reg::Spill { slot } => Some(slot),
                _ => None,
            }),
    {
        match self {
            Reg::Spill { slot } => Some(slot),
            _ => None,
        }
    }

    /// The physical register, if the value is in one.
    pub fn to_real_reg(self) -> (preg: Option<PReg>)
        ensures
            preg == (match self {
                Reg::Real(preg) => Some(preg),
                _ => None,
            }),
    {
        match self {
            Reg::Real(preg) => Some(preg),
            _ => None,
        }
    }
}

/// Where the allocator may place an operand.
#[derive(Clone, Copy, Debug, PartialEq, Eq, Structural)]
pub enum OperandConstraint {
    /// Any register or spill slot.
    Any,
    /// Any register.
    Reg,
    /// This register.
    FixedReg(PReg),
}

impl OperandConstraint {
    /// The number of the constraint in the allocator's encoding.
    pub open spec fn code(self) -> int {
        match self {
            OperandConstraint::Any => 0,
            OperandConstraint::Reg => 1,
            OperandConstraint::FixedReg(preg) => 64 + preg.encoding(),
        }
    }
}

/// Whether an operand is written or read.
#[derive(Clone, Copy, Debug, PartialEq, Eq, Structural)]
pub enum OperandKind {
    Def,
    Use,
}

impl OperandKind {
    /// The number of the kind in the allocator's encoding.
    pub open spec fn code(self) -> int {
        match self {
            OperandKind::Def => 0,
            OperandKind::Use => 1,
        }
    }
}

/// Whether an operand takes effect before or after its instruction's work.
#[derive(Clone, Copy, Debug, PartialEq, Eq, Structural)]
pub enum OperandPos {
    Early,
    Late,
}

impl OperandPos {
    /// The number of the position in the allocator's encoding.
    pub open spec fn code(self) -> int {
        match self {
            OperandPos::Early => 0,
            OperandPos::Late => 1,
        }
    }
}

/// The allocator's encoding of an operand.
pub open spec fn operand_code(
    vreg: int,
    class: RegClass,
    constraint: OperandConstraint,
    kind: OperandKind,
    pos: OperandPos,
) -> int {
    vreg + class.code() * 0x1_0000_0000 + pos.code() * 0x4_0000_0000 + kind.code() * 0x8_0000_0000
        + constraint.code() * 0x10_0000_0000
}

/// The encoding of an operand, by `regalloc2::Operand::new` and
/// `regalloc2::Operand::bits`. Claimed: the fields from the low end are the
/// register number in 32 bits, the class in two, the position in one, the kind
/// in one and the constraint in seven, where a fixed register is marked by the
/// top bit of its field above its hardware encoding.
#[verifier::external_body]
fn operand_bits(
    vreg: usize,
    class: RegClass,
    constraint: OperandConstraint,
    kind: OperandKind,
    pos: OperandPos,
) -> (bits: u64)
    requires
        vreg < MAX_VREGS,
        constraint matches OperandConstraint::FixedReg(preg) ==> preg.wf() && preg.class_code()
            == class.code(),
    ensures
        bits == operand_code(vreg as int, class, constraint, kind, pos),
{
    let class = match class {
        RegClass::Int => regalloc2::RegClass::Int,
        RegClass::Float => regalloc2::RegClass::Float,
        RegClass::Vector => regalloc2::RegClass::Vector,
    };
    let constraint = match constraint {
        OperandConstraint::Any => regalloc2::OperandConstraint::Any,
        OperandConstraint::Reg => regalloc2::OperandConstraint::Reg,
        OperandConstraint::FixedReg(preg) => regalloc2::OperandConstraint::FixedReg(regalloc2::PReg::from_index(preg.index)),
    };
    let kind = match kind { OperandKind::Def => regalloc2::OperandKind::Def, OperandKind::Use => regalloc2::OperandKind::Use };
    let pos = match pos { OperandPos::Early => regalloc2::OperandPos::Early, OperandPos::Late => regalloc2::OperandPos::Late };
    regalloc2::Operand::new(regalloc2::VReg::new(vreg, class), constraint, kind, pos).bits()
}

/// What visits the operands of an instruction in turn. A visitor may change the
/// register that it is shown.
pub trait OperandVisitor {
    /// What the visitor has seen so far.
    type State;

    /// What the visitor has seen so far.
    spec fn state(&self) -> Self::State;

    /// A visitor in this state can be shown the operand.
    spec fn accepts(
        state: Self::State,
        reg: Reg,
        constraint: OperandConstraint,
        kind: OperandKind,
        pos: OperandPos,
    ) -> bool;

    /// The state after the operand.
    spec fn seen(
        state: Self::State,
        reg: Reg,
        constraint: OperandConstraint,
        kind: OperandKind,
        pos: OperandPos,
    ) -> Self::State;

    /// What becomes of the register of the operand.
    spec fn rewritten(
        state: Self::State,
        reg: Reg,
        constraint: OperandConstraint,
        kind: OperandKind,
        pos: OperandPos,
    ) -> Reg;

    /// Shows the visitor one operand.
    fn add_operand(
        &mut self,
        reg: &mut Reg,
        constraint: OperandConstraint,
        kind: OperandKind,
        pos: OperandPos,
    )
        requires
            Self::accepts(old(self).state(), *old(reg), constraint, kind, pos),
        ensures
            final(self).state() == Self::seen(
                old(self).state(),
                *old(reg),
                constraint,
                kind,
                pos,
            ),
            *final(reg) == Self::rewritten(old(self).state(), *old(reg), constraint, kind, pos),
    ;
}

/// Collects operands, encoded for the allocator.
#[derive(Clone, Debug)]
pub struct OperandCollector {
    pub operands: Vec<u64>,
}

impl OperandCollector {
    /// A collector that has seen nothing.
    pub fn new() -> (collector: OperandCollector)
        ensures
            collector.operands@ == Seq::<u64>::empty(),
    {
        OperandCollector { operands: Vec::new() }
    }
}

impl OperandVisitor for OperandCollector {
    type State = Seq<u64>;

    open spec fn state(&self) -> Seq<u64> {
        self.operands@
    }

    open spec fn accepts(
        state: Seq<u64>,
        reg: Reg,
        constraint: OperandConstraint,
        kind: OperandKind,
        pos: OperandPos,
    ) -> bool {
        &&& reg matches Reg::Virtual { index, class }
        &&& index < MAX_VREGS
        &&& constraint matches OperandConstraint::FixedReg(preg) ==> preg.wf() && preg.class_code()
            == class.code()
    }

    open spec fn seen(
        state: Seq<u64>,
        reg: Reg,
        constraint: OperandConstraint,
        kind: OperandKind,
        pos: OperandPos,
    ) -> Seq<u64> {
        match reg {
            Reg::Virtual { index, class } => state.push(
                operand_code(index as int, class, constraint, kind, pos) as u64,
            ),
            _ => state,
        }
    }

    open spec fn rewritten(
        state: Seq<u64>,
        reg: Reg,
        constraint: OperandConstraint,
        kind: OperandKind,
        pos: OperandPos,
    ) -> Reg {
        reg
    }

    fn add_operand(
        &mut self,
        reg: &mut Reg,
        constraint: OperandConstraint,
        kind: OperandKind,
        pos: OperandPos,
    ) {
        if let Reg::Virtual { index, class } = *reg {
            let bits = operand_bits(index, class, constraint, kind, pos);
            self.operands.push(bits);
        }
    }
}

/// Where the allocator placed an operand.
#[derive(Clone, Copy, Debug, PartialEq, Eq, Structural)]
pub enum Allocation {
    Reg(PReg),
    Stack(u32),
}

impl Allocation {
    /// The register that stands for the place.
    pub open spec fn place(self) -> Reg {
        match self {
            Allocation::Reg(preg) => Reg::Real(preg),
            Allocation::Stack(slot) => Reg::Spill { slot },
        }
    }
}

/// Hands the allocations of an instruction to its operands, in turn.
#[derive(Debug)]
pub struct AllocationConsumer {
    allocations: Vec<Allocation>,
    next: usize,
}

impl AllocationConsumer {
    /// The allocations that were not handed out yet.
    pub closed spec fn left(self) -> Seq<Allocation> {
        self.allocations@.skip(self.next as int)
    }

    #[verifier::type_invariant]
    spec fn inv(self) -> bool {
        self.next <= self.allocations@.len()
    }

    /// A consumer that will hand out all of `allocations`.
    pub fn new(allocations: Vec<Allocation>) -> (consumer: AllocationConsumer)
        ensures
            consumer.left() == allocations@,
    {
        let consumer = AllocationConsumer { allocations, next: 0 };
        assert(consumer.left() =~= allocations@);
        consumer
    }
}

impl OperandVisitor for AllocationConsumer {
    type State = Seq<Allocation>;

    open spec fn state(&self) -> Seq<Allocation> {
        self.left()
    }

    open spec fn accepts(
        state: Seq<Allocation>,
        reg: Reg,
        constraint: OperandConstraint,
        kind: OperandKind,
        pos: OperandPos,
    ) -> bool {
        state.len() > 0
    }

    open spec fn seen(
        state: Seq<Allocation>,
        reg: Reg,
        constraint: OperandConstraint,
        kind: OperandKind,
        pos: OperandPos,
    ) -> Seq<Allocation> {
        state.skip(1)
    }

    open spec fn rewritten(
        state: Seq<Allocation>,
        reg: Reg,
        constraint: OperandConstraint,
        kind: OperandKind,
        pos: OperandPos,
    ) -> Reg {
        state[0].place()
    }

    fn add_operand(
        &mut self,
        reg: &mut Reg,
        constraint: OperandConstraint,
        kind: OperandKind,
        pos: OperandPos,
    ) {
        proof {
            use_type_invariant(&*self);
        }
        let count: usize = self.allocations.len();
        assert(self.next < count);
        *reg = match self.allocations[self.next] {
            Allocation::Reg(preg) => Reg::Real(preg),
            Allocation::Stack(slot) => Reg::Spill { slot },
        };
        self.next = self.next + 1;
        assert(self.left() =~= old(self).left().skip(1));
    }
}

} // verus!
