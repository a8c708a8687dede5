//! What holds of operands: their types, registers, slots and locations.

use vstd::prelude::*;

use crate::boundary;
use crate::boundary::{Boundary, BoundaryValue};
use crate::frame::FrameLayout;
use crate::reg;
use crate::reg::{Allocation, AllocationConsumer, OperandCollector, OperandConstraint};
use crate::reg::{OperandKind, OperandPos, OperandVisitor, PReg, Reg, RegClass};
use crate::state_map;
use crate::state_map::{EntryConstraint, Location, StateMap};
use crate::types::Type;

verus! {

/// How many lanes a value of the type has.
pub open spec fn lanes(ty: Type) -> int {
    match ty {
        Type::I8X16 => 16,
        Type::I8X8 | Type::I16X8 | Type::F16X8 => 8,
        Type::I8X4 | Type::I16X4 | Type::I32X4 | Type::F16X4 | Type::F32X4 => 4,
        Type::I8X2 | Type::I16X2 | Type::I32X2 | Type::I64X2 => 2,
        Type::F16X2 | Type::F32X2 | Type::F64X2 => 2,
        _ => 1,
    }
}

/// The type of one lane.
pub open spec fn lane(ty: Type) -> Type {
    match ty {
        Type::I8X2 | Type::I8X4 | Type::I8X8 | Type::I8X16 => Type::I8,
        Type::I16X2 | Type::I16X4 | Type::I16X8 => Type::I16,
        Type::I32X2 | Type::I32X4 => Type::I32,
        Type::I64X2 => Type::I64,
        Type::F16X2 | Type::F16X4 | Type::F16X8 => Type::F16,
        Type::F32X2 | Type::F32X4 => Type::F32,
        Type::F64X2 => Type::F64,
        _ => ty,
    }
}

/// A value is as wide as its lanes together. Only a lone integer is in an integer
/// register, and only one that is wider than such a register needs two of them.
pub proof fn lemma_types_are_made_of_lanes(ty: Type)
    ensures
        ty.width() == lanes(ty) * lane(ty).width(),
        Type::I8.width() == 8,
        Type::I16.width() == 16 && Type::F16.width() == 16,
        Type::I32.width() == 32 && Type::F32.width() == 32,
        Type::I64.width() == 64 && Type::F64.width() == 64,
        Type::I128.width() == 128 && Type::F128.width() == 128,
        lanes(ty) > 1 ==> ty.class() == RegClass::Float,
        ty.class() == RegClass::Int <==> ty == Type::I8 || ty == Type::I16 || ty == Type::I32 || ty
            == Type::I64 || ty == Type::I128,
        ty.class() != RegClass::Vector,
        ty.in_one_reg() <==> ty.class() == RegClass::Float || ty.width() <= 64,
{
}

/// Spill slots are words of eight bytes, one right behind the other, and the first
/// one is right behind the explicit stack slots.
pub proof fn lemma_slots_are_words(frame: FrameLayout, slot: u32)
    requires
        slot < u32::MAX,
    ensures
        frame.slot_offset(0) == frame.stackslots_size,
        frame.slot_offset((slot + 1) as u32) == frame.slot_offset(slot) + 8,
{
}

/// A value lies inside the frame exactly if its last byte does, counted from the
/// start of the frame.
pub proof fn lemma_frame_holds(frame: FrameLayout, slot: u32, bytes: int)
    ensures
        frame.holds(slot, bytes) <==> frame.transfer_bytes + frame.stackslots_size + 8 * slot
            + bytes <= frame.frame_bytes,
{
}

/// Every operand that needs a place has a physical register of one of the three
/// classes, or a slot that holds all of its bytes inside the frame.
pub proof fn lemma_placed_operands(b: Boundary, frame: FrameLayout)
    ensures
        b.placed(frame) <==> forall|i: int|
            0 <= i < b.values@.len() ==> match (#[trigger] b.values@[i]).0 {
                BoundaryValue::Register(Reg::Virtual { .. }) => false,
                BoundaryValue::Register(Reg::Real(preg)) => preg.index < 192,
                BoundaryValue::Register(Reg::Spill { slot }) => frame.transfer_bytes
                    + frame.stackslots_size + 8 * slot + b.values@[i].1.width() as int / 8
                    <= frame.frame_bytes,
                _ => true,
            },
{
}

/// Where an operand is reported. A register is named by its number within its
/// bank. Operands in two slots are reported as far apart as the slots are, in
/// words of eight bytes, and slot number zero right behind the explicit slots.
pub proof fn lemma_reported_locations(b: Boundary, frame: FrameLayout, i: int, j: int)
    requires
        b.placed(frame),
        0 <= i < b.values@.len(),
        0 <= j < b.values@.len(),
    ensures
        b.located(frame).len() == b.values@.len(),
        b.located(frame)[i].ty == b.values@[i].1,
        b.values@[i].0 is Unused ==> b.located(frame)[i].location == Location::Unused,
        b.values@[i].0 matches BoundaryValue::Constant(words) ==> b.located(frame)[i].location
            == Location::Constant(words),
        b.values@[i].0 matches BoundaryValue::Register(Reg::Real(preg)) ==> (b.located(
            frame,
        )[i].location matches Location::Register { index, vector } && index < 64 && (if vector {
            preg.index == 64 + index
        } else {
            preg.index == index || preg.index == 128 + index
        })),
        b.values@[i].0 matches BoundaryValue::Register(Reg::Spill { slot }) ==> (b.located(
            frame,
        )[i].location matches Location::Spill { offset } && (slot == 0 ==> offset
            == frame.transfer_bytes + frame.stackslots_size)),
        b.values@[i].0 matches BoundaryValue::Register(Reg::Spill { slot }) ==> (
        b.values@[j].0 matches BoundaryValue::Register(Reg::Spill { slot: other }) ==> b.located(
            frame,
        )[j].location->Spill_offset - b.located(frame)[i].location->Spill_offset == 8 * (other
            - slot)),
{
    let _ = b.values@[i];
    let _ = b.values@[j];
}

/// The bytes from `start` on and those from `other` on have none in common.
pub open spec fn apart(start: int, len: int, other: int, other_len: int) -> bool {
    start + len <= other || other + other_len <= start
}

/// Values in slots that share no word are reported at bytes that do not overlap.
pub proof fn lemma_spilled_values_do_not_overlap(
    b: Boundary,
    frame: FrameLayout,
    i: int,
    j: int,
    slot: u32,
    other: u32,
)
    requires
        b.placed(frame),
        0 <= i < b.values@.len(),
        0 <= j < b.values@.len(),
        b.values@[i].0 == BoundaryValue::Register(Reg::Spill { slot }),
        b.values@[j].0 == BoundaryValue::Register(Reg::Spill { slot: other }),
        apart(
            8 * slot,
            b.values@[i].1.width() as int / 8,
            8 * other,
            b.values@[j].1.width() as int / 8,
        ),
    ensures
        b.located(frame)[i].location is Spill,
        b.located(frame)[j].location is Spill,
        apart(
            b.located(frame)[i].location->Spill_offset as int,
            b.values@[i].1.width() as int / 8,
            b.located(frame)[j].location->Spill_offset as int,
            b.values@[j].1.width() as int / 8,
        ),
{
    lemma_reported_locations(b, frame, i, j);
}

/// A physical register is its class and its number within it, and nothing else.
pub proof fn lemma_registers_have_fields(preg: PReg, hw_enc: int, class: RegClass)
    requires
        0 <= hw_enc < 64,
    ensures
        preg.wf() <==> preg.index < 192,
        0 <= preg.encoding() < 64,
        preg.index == 64 * preg.class_code() + preg.encoding(),
        PReg::of(hw_enc, class).wf(),
        PReg::of(hw_enc, class).encoding() == hw_enc,
        PReg::of(hw_enc, class).class_code() == class.code(),
        RegClass::Int.code() == 0 && RegClass::Float.code() == 1 && RegClass::Vector.code() == 2,
{
}

proof fn lemma_low_field(low: int, size: int, high: int, whole: int)
    requires
        size > 0,
        0 <= low < size,
        whole == low + high * size,
    ensures
        whole % size == low,
        whole / size == high,
{
    assert(whole % size == low && whole / size == high) by (nonlinear_arith)
        requires
            size > 0,
            0 <= low < size,
            whole == low + high * size,
    ;
}

/// The fields of an encoded operand, from the low end: the number of the register
/// in 32 bits, its class in two, the position and the kind in one each, and the
/// constraint.
pub proof fn lemma_encoded_operands_have_fields(
    vreg: int,
    class: RegClass,
    constraint: OperandConstraint,
    kind: OperandKind,
    pos: OperandPos,
)
    requires
        0 <= vreg < 0x4000_0000,
    ensures
        ({
            let bits = reg::operand_code(vreg, class, constraint, kind, pos);
            let fields = bits / 0x1_0000_0000;
            &&& 0 <= bits < 0x1_0000_0000_0000_0000
            &&& bits % 0x1_0000_0000 == vreg
            &&& fields % 4 == class.code()
            &&& fields / 4 % 2 == 1 <==> pos == OperandPos::Late
            &&& fields / 8 % 2 == 1 <==> kind == OperandKind::Use
            &&& fields / 16 == (match constraint {
                OperandConstraint::Any => 0,
                OperandConstraint::Reg => 1,
                OperandConstraint::FixedReg(preg) => 64 + preg.index as int % 64,
            })
        }),
{
    let bits = reg::operand_code(vreg, class, constraint, kind, pos);
    let fields = class.code() + pos.code() * 4 + kind.code() * 8 + constraint.code() * 16;
    lemma_low_field(vreg, 0x1_0000_0000, fields, bits);
}

/// What the allocator is asked for an operand. It is where the caller wants it, in
/// a register if the exit compares it, and anywhere otherwise. An entry writes its
/// operands after its work, any other boundary reads them before.
pub proof fn lemma_requested_places(b: Boundary, i: int)
    requires
        0 <= i < b.values@.len() <= usize::MAX,
    ensures
        ({
            let r = b.request(i);
            &&& r.index == i
            &&& r.kind == OperandKind::Def <==> b.entry
            &&& r.pos == OperandPos::Late <==> b.entry
            &&& match r.constraint {
                OperandConstraint::FixedReg(preg) => {
                    &&& i < b.entry_constraints@.len()
                    &&& b.entry_constraints@[i] matches EntryConstraint::Register { index, vector }
                    &&& preg.index == (if vector {
                        64 + index
                    } else {
                        index as int
                    })
                },
                OperandConstraint::Reg => {
                    &&& i >= b.entry_constraints@.len() || b.entry_constraints@[i]
                        == EntryConstraint::Any
                    &&& b.compare is Some
                    &&& b.compare->Some_0.lhs == i || b.compare->Some_0.rhs == i
                },
                OperandConstraint::Any => {
                    &&& i >= b.entry_constraints@.len() || b.entry_constraints@[i]
                        == EntryConstraint::Any
                    &&& b.compare matches Some(c) ==> c.lhs != i && c.rhs != i
                },
            }
        }),
{
}

/// A collector takes an operand exactly if it is in a virtual register that the
/// allocator can number, of the class of the register that it must be in, and then
/// leaves it there. A consumer gives it the next allocation, if there is one.
pub proof fn lemma_visitors(
    collected: Seq<u64>,
    allocations: Seq<Allocation>,
    reg: Reg,
    constraint: OperandConstraint,
    kind: OperandKind,
    pos: OperandPos,
)
    ensures
        OperandCollector::accepts(collected, reg, constraint, kind, pos) <==> (
        reg matches Reg::Virtual { index, class } && index < 0x4000_0000 && (
        constraint matches OperandConstraint::FixedReg(preg) ==> preg.index < 192
            && preg.index as int / 64 == class.code())),
        OperandCollector::rewritten(collected, reg, constraint, kind, pos) == reg,
        AllocationConsumer::accepts(allocations, reg, constraint, kind, pos) <==> allocations.len()
            > 0,
        AllocationConsumer::seen(allocations, reg, constraint, kind, pos) == allocations.skip(1),
        AllocationConsumer::rewritten(allocations, reg, constraint, kind, pos) == (
        match allocations[0] {
            Allocation::Reg(preg) => Reg::Real(preg),
            Allocation::Stack(slot) => Reg::Spill { slot },
        }),
{
}

/// The map of a boundary has its identity and kind, and one value per operand.
/// Exactly an exit or a check has a patch unit, exactly a cost gives a deadline,
/// one unit later or, behind a comparison, two, and exactly a comparison gives
/// flags.
pub proof fn lemma_state_maps_describe(
    b: Boundary,
    map: StateMap,
    frame: FrameLayout,
    offset: int,
    patch_bytes: u8,
)
    requires
        b.is_state_map(map, frame, offset, patch_bytes),
        0 <= offset <= u32::MAX,
        b.poll_cost is Some && b.compare is None ==> offset + patch_bytes <= u32::MAX,
        b.poll_cost is Some && b.compare is Some ==> offset + patch_bytes + patch_bytes <= u32::MAX,
    ensures
        map.id == b.id,
        map.offset == offset,
        map.entry <==> b.entry,
        b.exit || b.check ==> map.patch_bytes == patch_bytes,
        !b.exit && !b.check ==> map.patch_bytes == 0,
        map.fault_bytes == 0,
        map.poll is Some <==> b.poll_cost is Some,
        map.poll matches Some(poll) ==> {
            &&& b.poll_cost == Some(poll.completed)
            &&& b.compare is None ==> poll.offset - map.offset == patch_bytes
            &&& b.compare is Some ==> poll.offset - map.offset == patch_bytes + patch_bytes
        },
        map.subtract_flags <==> b.compare is Some,
        map.values@.len() == b.values@.len(),
        forall|i: int|
            0 <= i < b.values@.len() ==> (#[trigger] map.values@[i]).ty == b.values@[i].1
                && map.values@[i].location == Boundary::location(frame, b.values@[i].0),
{
}

/// The map of a faulting instruction has the identity and the values of its span,
/// and claims nothing else.
pub proof fn lemma_fault_maps_describe(b: Boundary, map: StateMap, frame: FrameLayout)
    requires
        b.is_fault_map(map, frame),
    ensures
        map.id == b.id,
        map.offset == 0 && map.patch_bytes == 0 && map.fault_bytes == 0,
        !map.entry && !map.subtract_flags && map.poll is None,
        map.values@.len() == b.values@.len(),
        forall|i: int|
            0 <= i < b.values@.len() ==> (#[trigger] map.values@[i]).ty == b.values@[i].1
                && map.values@[i].location == Boundary::location(frame, b.values@[i].0),
{
}

/// What is asked of a boundary before its operands are shown to the allocator, and
/// before its comparison is read.
pub proof fn lemma_boundary_conditions(b: Boundary)
    ensures
        b.constraints_encodable() <==> forall|i: int|
            0 <= i < b.values@.len() && i < b.entry_constraints@.len() && (
            #[trigger] b.values@[i]).0 is Register ==> (
            b.entry_constraints@[i] matches EntryConstraint::Register { index, .. } ==> index
                < 64),
        b.all_used() <==> forall|i: int|
            0 <= i < b.values@.len() ==> !((#[trigger] b.values@[i]).0 is Unused),
        b.comparable() <==> (b.compare matches Some(c) ==> {
            &&& c.lhs < b.values@.len() && c.rhs < b.values@.len()
            &&& b.values@[c.lhs as int].0 is Register
                && b.values@[c.lhs as int].0->Register_0 is Real
            &&& b.values@[c.rhs as int].0 is Register
                && b.values@[c.rhs as int].0->Register_0 is Real
        }),
        boundary::bank_class(true) == RegClass::Float && boundary::bank_class(false)
            == RegClass::Int,
{
}

/// The number that decimal digits stand for.
pub open spec fn read_decimal(digits: Seq<char>) -> int
    decreases digits.len(),
{
    if digits.len() == 0 {
        0
    } else {
        10 * read_decimal(digits.drop_last()) + (digits.last() as int - '0' as int)
    }
}

/// Digits read back as their number, and there are no more of them than it takes.
pub proof fn lemma_digits_read_back(n: nat)
    ensures
        read_decimal(state_map::decimal(n)) == n,
        state_map::decimal(n).len() > 0,
        state_map::decimal(n)[0] == '0' ==> n == 0 && state_map::decimal(n).len() == 1,
        forall|i: int|
            0 <= i < state_map::decimal(n).len() ==> '0' <= #[trigger] state_map::decimal(n)[i]
                <= '9',
    decreases n,
{
    let digits = state_map::decimal(n);
    let last = ('0' as int + n % 10) as char;
    assert(last as int == '0' as int + n % 10);
    assert(digits.last() == last);
    if n >= 10 {
        lemma_digits_read_back(n / 10);
        assert(digits.drop_last() =~= state_map::decimal(n / 10));
        assert(digits[0] == state_map::decimal(n / 10)[0]);
    } else {
        assert(digits.drop_last() =~= Seq::empty());
        reveal_with_fuel(read_decimal, 2);
    }
}

/// The words of a constraint are `any`, or the bank and, behind one space, the number
/// of the register.
pub proof fn lemma_constraint_words(index: u8, vector: bool)
    ensures
        EntryConstraint::Any.words() == "any"@,
        ({
            let words = (EntryConstraint::Register { index, vector }).words();
            let bank = if vector {
                "vector "@
            } else {
                "integer "@
            };
            &&& bank.len() < words.len()
            &&& words.take(bank.len() as int) == bank
            &&& words[bank.len() as int] == '0' ==> index == 0 && words.len() == bank.len() + 1
            &&& read_decimal(words.skip(bank.len() as int)) == index
        }),
{
    let bank = if vector {
        "vector "@
    } else {
        "integer "@
    };
    let words = (EntryConstraint::Register { index, vector }).words();
    let digits = state_map::decimal(index as nat);
    lemma_digits_read_back(index as nat);
    assert(words == bank + digits);
    assert(words.take(bank.len() as int) =~= bank);
    assert(words.skip(bank.len() as int) =~= digits);
}

} // verus!
