//! What holds of boundaries from lowering through allocation to their maps.

use vstd::prelude::*;

use crate::boundary;
use crate::boundary::{Boundary, BoundaryValue, OperandRequest};
use crate::bytes;
use crate::emit;
use crate::frame::FrameLayout;
use crate::ir;
use crate::ir::{Inst, InstructionData, Opcode};
use crate::isa::{Arch, TargetIsa, MAX_COST};
use crate::lower;
use crate::lower::Lower;
use crate::patch;
use crate::reg;
use crate::reg::{Allocation, AllocationConsumer, OperandCollector, OperandVisitor, PReg, Reg};
use crate::reg::{OperandConstraint, OperandKind, MAX_VREGS};
use crate::state_map::{EntryConstraint, LocatedValue, Location};
use crate::types::Type;
use crate::validate;

verus! {

/// Every request of the plan is for its own operand, which needs a place.
pub open spec fn well_planned(
    plan: Seq<OperandRequest>,
    values: Seq<(BoundaryValue, Type)>,
) -> bool {
    &&& forall|j: int|
        0 <= j < plan.len() ==> (#[trigger] plan[j]).index < values.len()
            && values[plan[j].index as int].0 is Register
    &&& forall|j: int, k: int|
        0 <= j < k < plan.len() ==> (#[trigger] plan[j]).index != (#[trigger] plan[k]).index
}

proof fn lemma_group(b: Boundary, compared: bool, count: nat)
    requires
        count <= b.values@.len() <= usize::MAX,
    ensures
        forall|j: int|
            0 <= j < b.requests(compared, count).len() ==> {
                let r = #[trigger] b.requests(compared, count)[j];
                &&& r.index < count
                &&& b.values@[r.index as int].0 is Register
                &&& b.compared(r.index as int) == compared
                &&& r == b.request(r.index as int)
            },
        forall|j: int, k: int|
            0 <= j < k < b.requests(compared, count).len() ==> (#[trigger] b.requests(
                compared,
                count,
            )[j]).index < (#[trigger] b.requests(compared, count)[k]).index,
        forall|i: int|
            0 <= i < count && (#[trigger] b.values@[i]).0 is Register && b.compared(i) == compared
                ==> b.requests(compared, count).contains(b.request(i)),
    decreases count,
{
    if count > 0 {
        lemma_group(b, compared, (count - 1) as nat);
        let before = b.requests(compared, (count - 1) as nat);
        let after = b.requests(compared, count);
        assert forall|i: int|
            0 <= i < count && (#[trigger] b.values@[i]).0 is Register && b.compared(i)
                == compared implies after.contains(b.request(i)) by {
            if i == count - 1 {
                assert(after.last() == b.request(i));
            } else {
                let j = choose|j: int| 0 <= j < before.len() && before[j] == b.request(i);
                assert(after[j] == b.request(i));
            }
        }
    }
}

/// The plan of a boundary asks once for each operand that needs a place, and for
/// nothing else. Compared operands come before all others, and both groups are
/// in the caller's order.
pub proof fn lemma_plan_covers_operands(b: Boundary)
    requires
        b.values@.len() <= usize::MAX,
    ensures
        well_planned(b.plan(), b.values@),
        forall|i: int|
            0 <= i < b.values@.len() && (#[trigger] b.values@[i]).0 is Register
                ==> b.plan().contains(b.request(i)),
        forall|j: int|
            0 <= j < b.plan().len() ==> #[trigger] b.plan()[j] == b.request(
                b.plan()[j].index as int,
            ),
        forall|j: int, k: int|
            0 <= j < k < b.plan().len() && b.compared((#[trigger] b.plan()[k]).index as int)
                ==> b.compared((#[trigger] b.plan()[j]).index as int),
        forall|j: int, k: int|
            0 <= j < k < b.plan().len() && b.compared((#[trigger] b.plan()[j]).index as int)
                == b.compared((#[trigger] b.plan()[k]).index as int) ==> b.plan()[j].index
                < b.plan()[k].index,
{
    let n = b.values@.len();
    let first = b.requests(true, n);
    let second = b.requests(false, n);
    lemma_group(b, true, n);
    lemma_group(b, false, n);
    assert forall|i: int|
        0 <= i < b.values@.len() && (#[trigger] b.values@[i]).0 is Register implies b.plan().contains(
        b.request(i),
    ) by {
        if b.compared(i) {
            let j = choose|j: int| 0 <= j < first.len() && first[j] == b.request(i);
            assert(b.plan()[j] == b.request(i));
        } else {
            let j = choose|j: int| 0 <= j < second.len() && second[j] == b.request(i);
            assert(b.plan()[first.len() + j] == b.request(i));
        }
    }
}

/// The register number and class of an operand before allocation.
pub open spec fn virtual_operand(
    values: Seq<(BoundaryValue, Type)>,
    r: OperandRequest,
) -> u64 {
    match values[r.index as int].0 {
        BoundaryValue::Register(Reg::Virtual { index, class }) => reg::operand_code(
            index as int,
            class,
            r.constraint,
            r.kind,
            r.pos,
        ) as u64,
        _ => arbitrary(),
    }
}

/// Every planned operand is in a virtual register whose class suits it.
pub open spec fn collectable(
    plan: Seq<OperandRequest>,
    values: Seq<(BoundaryValue, Type)>,
) -> bool {
    forall|j: int|
        0 <= j < plan.len() ==> (values[(#[trigger] plan[j]).index as int].0
            matches BoundaryValue::Register(reg) && OperandCollector::accepts(
            Seq::empty(),
            reg,
            plan[j].constraint,
            plan[j].kind,
            plan[j].pos,
        ))
}

/// Collecting operands leaves them as they are, and gives the encoded requests
/// in the order of the plan.
pub proof fn lemma_collected_operands(
    state: Seq<u64>,
    values: Seq<(BoundaryValue, Type)>,
    plan: Seq<OperandRequest>,
)
    requires
        collectable(plan, values),
        well_planned(plan, values),
    ensures
        boundary::accepts::<OperandCollector>(state, values, plan),
        boundary::visit::<OperandCollector>(state, values, plan) == (
            state + Seq::new(plan.len(), |j: int| virtual_operand(values, plan[j])),
            values,
        ),
    decreases plan.len(),
{
    if plan.len() > 0 {
        let before = plan.drop_last();
        assert(collectable(before, values)) by {
            assert forall|j: int| 0 <= j < before.len() implies (values[(#[trigger] before[j]).index as int].0
                matches BoundaryValue::Register(reg) && OperandCollector::accepts(
                Seq::empty(),
                reg,
                before[j].constraint,
                before[j].kind,
                before[j].pos,
            )) by {
                assert(before[j] == plan[j]);
            }
        }
        assert(well_planned(before, values));
        lemma_collected_operands(state, values, before);
        let r = plan.last();
        assert(plan[plan.len() - 1] == r);
        let (value, ty) = values[r.index as int];
        assert(values.update(r.index as int, (value, ty)) =~= values);
        assert(state + Seq::new(before.len(), |j: int| virtual_operand(values, before[j]))
            =~= state + Seq::new(before.len(), |j: int| virtual_operand(values, plan[j])));
        assert((state + Seq::new(before.len(), |j: int| virtual_operand(values, plan[j]))).push(
            virtual_operand(values, r),
        ) =~= state + Seq::new(plan.len(), |j: int| virtual_operand(values, plan[j])));
    } else {
        assert(state + Seq::new(plan.len(), |j: int| virtual_operand(values, plan[j])) =~= state);
    }
}

/// Allocations that come back in the order of the plan reach the operands that
/// were asked for in that order, and change nothing else.
pub proof fn lemma_allocations_reach_operands(
    allocations: Seq<Allocation>,
    values: Seq<(BoundaryValue, Type)>,
    plan: Seq<OperandRequest>,
)
    requires
        well_planned(plan, values),
        plan.len() <= allocations.len(),
    ensures
        boundary::accepts::<AllocationConsumer>(allocations, values, plan),
        ({
            let (left, after) = boundary::visit::<AllocationConsumer>(allocations, values, plan);
            &&& left == allocations.skip(plan.len() as int)
            &&& after.len() == values.len()
            &&& forall|j: int|
                0 <= j < plan.len() ==> after[(#[trigger] plan[j]).index as int] == (
                    BoundaryValue::Register(allocations[j].place()),
                    values[plan[j].index as int].1,
                )
            &&& forall|i: int|
                0 <= i < values.len() && (forall|j: int|
                    0 <= j < plan.len() ==> (#[trigger] plan[j]).index != i)
                    ==> #[trigger] after[i] == values[i]
        }),
    decreases plan.len(),
{
    if plan.len() > 0 {
        let before = plan.drop_last();
        assert(well_planned(before, values)) by {
            assert forall|j: int| 0 <= j < before.len() implies (#[trigger] before[j]).index
                < values.len() && values[before[j].index as int].0 is Register by {
                assert(before[j] == plan[j]);
            }
            assert forall|j: int, k: int| 0 <= j < k < before.len() implies (
            #[trigger] before[j]).index != (#[trigger] before[k]).index by {
                assert(before[j] == plan[j] && before[k] == plan[k]);
            }
        }
        lemma_allocations_reach_operands(allocations, values, before);
        let (rest, middle) = boundary::visit::<AllocationConsumer>(allocations, values, before);
        let (left, after) = boundary::visit::<AllocationConsumer>(allocations, values, plan);
        let r = plan.last();
        assert(plan[plan.len() - 1] == r);
        assert forall|j: int| 0 <= j < before.len() implies (#[trigger] before[j]).index
            != r.index by {
            assert(before[j] == plan[j]);
        }
        assert(middle[r.index as int] == values[r.index as int]);
        assert(rest.skip(1) =~= allocations.skip(plan.len() as int));
        assert(rest[0] == allocations[plan.len() - 1]);
        assert forall|j: int| 0 <= j < plan.len() implies after[(#[trigger] plan[j]).index as int]
            == (
            BoundaryValue::Register(allocations[j].place()),
            values[plan[j].index as int].1,
        ) by {
            if j < before.len() {
                assert(before[j] == plan[j]);
            }
        }
        assert forall|i: int|
            0 <= i < values.len() && (forall|j: int|
                0 <= j < plan.len() ==> (#[trigger] plan[j]).index != i) implies #[trigger] after[i]
            == values[i] by {
            assert forall|j: int| 0 <= j < before.len() implies (#[trigger] before[j]).index
                != i by {
                assert(before[j] == plan[j]);
            }
            assert(plan[plan.len() - 1].index != i);
        }
    } else {
        assert(allocations.skip(0) =~= allocations);
    }
}

/// A boundary that uses values has one operand per argument, with its type, in
/// the caller's order. No operand is unused, a literal keeps its exact bits, and
/// a compared operand is in a register even if a literal defines it.
pub proof fn lemma_uses_keep_arguments(
    b: Boundary,
    ctx: Lower,
    inst: Inst,
    opcode: Opcode,
    imm: i64,
)
    requires
        lower::is_use(b, ctx, inst, opcode, imm),
    ensures
        b.values@.len() == ctx.inputs(inst).len(),
        b.all_used(),
        forall|i: int|
            0 <= i < b.values@.len() ==> (#[trigger] b.values@[i]).1 == ctx.ty(
                ctx.inputs(inst)[i],
            ),
        forall|i: int|
            0 <= i < b.values@.len() && (#[trigger] b.values@[i]).0 is Constant ==> lower::literal(
                *ctx.f,
                ctx.inputs(inst)[i],
            ) == Some(b.values@[i].0->Constant_0),
        forall|i: int|
            0 <= i < b.values@.len() && b.compared(i) ==> (#[trigger] b.values@[i]).0 is Register,
{
    let id = ir::word64(imm);
    assert forall|i: int| 0 <= i < b.values@.len() && b.compared(i) implies (
    #[trigger] b.values@[i]).0 is Register by {
        assert(!lower::carried_as_literal(ctx, inst, id, i));
    }
}

/// A repeated argument of a boundary is the same operand each time, unless it is
/// a literal of which one occurrence is compared and another is not.
pub proof fn lemma_repeated_arguments_are_aliases(
    b: Boundary,
    ctx: Lower,
    inst: Inst,
    opcode: Opcode,
    imm: i64,
    i: int,
    j: int,
)
    requires
        lower::is_use(b, ctx, inst, opcode, imm),
        0 <= i < b.values@.len(),
        0 <= j < b.values@.len(),
        ctx.inputs(inst)[i] == ctx.inputs(inst)[j],
        b.compared(i) == b.compared(j) || lower::literal(*ctx.f, ctx.inputs(inst)[i]) is None,
    ensures
        b.values@[i] == b.values@[j],
{
    assert(lower::carried_as_literal(ctx, inst, ir::word64(imm), i) == lower::carried_as_literal(
        ctx,
        inst,
        ir::word64(imm),
        j,
    ));
}

/// An entry has one operand per result, with its type, in order. None of them is
/// a literal, and exactly the results that nothing uses are unused.
pub proof fn lemma_entries_define_results(b: Boundary, ctx: Lower, inst: Inst, imm: i64)
    requires
        lower::is_entry(b, ctx, inst, imm),
    ensures
        b.values@.len() == ctx.outputs(inst).len(),
        forall|i: int|
            0 <= i < b.values@.len() ==> {
                let value = #[trigger] b.values@[i];
                &&& value.1 == ctx.ty(ctx.outputs(inst)[i])
                &&& !(value.0 is Constant)
                &&& value.0 is Unused <==> !ctx.lowered_uses@[ctx.outputs(inst)[i].0 as int]
            },
{
    assert(b.values@ == lower::entry_values(ctx, inst));
}

/// In a map, exactly the unused operands are at no location, and exactly the
/// literals are constants, with their own bits. So an exit or an observation
/// never reports an unused location, and an entry never a constant.
pub proof fn lemma_locations_by_kind(b: Boundary, frame: FrameLayout, i: int)
    requires
        b.placed(frame),
        0 <= i < b.values@.len(),
    ensures
        b.located(frame).len() == b.values@.len(),
        b.located(frame)[i].ty == b.values@[i].1,
        b.located(frame)[i].location is Unused <==> b.values@[i].0 is Unused,
        b.located(frame)[i].location is Constant <==> b.values@[i].0 is Constant,
        b.values@[i].0 matches BoundaryValue::Constant(bits) ==> b.located(frame)[i].location
            == Location::Constant(bits),
{
    let _ = b.values@[i];
}

/// A spilled operand lies behind the transfer area and the explicit stack slots,
/// inside the frame.
pub proof fn lemma_spills_stay_in_frame(b: Boundary, frame: FrameLayout, i: int)
    requires
        b.placed(frame),
        0 <= i < b.values@.len(),
    ensures
        b.located(frame)[i].location matches Location::Spill { offset } ==> {
            &&& frame.transfer_bytes + frame.stackslots_size <= offset
            &&& offset + b.values@[i].1.width() as int / 8 <= frame.frame_bytes
        },
{
    let _ = b.values@[i];
}

/// An entry result that is placed where its caller asked is reported there.
pub proof fn lemma_fixed_registers_are_reported(
    index: u8,
    vector: bool,
    frame: FrameLayout,
)
    requires
        index < reg::REGS_PER_CLASS,
    ensures
        Boundary::location(
            frame,
            BoundaryValue::Register(
                Allocation::Reg(PReg::of(index as int, boundary::bank_class(vector))).place(),
            ),
        ) == (Location::Register { index, vector }),
{
}

/// Emission may start at `start`: AArch64 code is made of whole words.
pub open spec fn startable(isa: TargetIsa, start: int) -> bool {
    start >= 0 && (isa.arch == Arch::AArch64 ==> start % 4 == 0)
}

/// The boundary has a patch unit.
pub open spec fn has_unit(b: Boundary) -> bool {
    b.charge is None && (b.exit || b.check)
}

/// The boundary has a deadline patch unit too.
pub open spec fn has_cold_unit(b: Boundary) -> bool {
    b.charge is None && b.exit && !b.check && b.poll_cost is Some
}

/// The offset of the deadline patch unit.
pub open spec fn cold_offset(b: Boundary, isa: TargetIsa, start: int) -> int {
    b.map_offset(isa, start) + b.poll_distance(isa.arch.patch_width())
}

/// `window` stands at `offset` of code that starts at `start`.
pub open spec fn stands_at(code: Seq<u8>, start: int, offset: int, window: Seq<u8>) -> bool {
    &&& start <= offset
    &&& offset + window.len() <= start + code.len()
    &&& code.subrange(offset - start, offset - start + window.len()) == window
}

/// Patch units are aligned to their own size.
pub proof fn lemma_units_are_aligned(b: Boundary, isa: TargetIsa, start: int)
    requires
        startable(isa, start),
        has_unit(b),
    ensures
        b.map_offset(isa, start) % isa.arch.patch_width() as int == 0,
        has_cold_unit(b) ==> cold_offset(b, isa, start) % isa.arch.patch_width() as int == 0,
{
}

/// Each patch unit that a boundary exports holds a trap until it is patched.
pub proof fn lemma_units_hold_traps(b: Boundary, isa: TargetIsa, start: int)
    requires
        startable(isa, start),
        has_unit(b),
    ensures
        emit::trap_unit(isa.arch).len() == isa.arch.patch_width(),
        stands_at(
            b.code(isa, start),
            start,
            b.map_offset(isa, start),
            emit::trap_unit(isa.arch),
        ),
        has_cold_unit(b) ==> stands_at(
            b.code(isa, start),
            start,
            cold_offset(b, isa, start),
            emit::trap_unit(isa.arch),
        ),
{
    let code = b.code(isa, start);
    let unit = emit::trap_unit(isa.arch);
    let hot = b.map_offset(isa, start) - start;
    assert(code.subrange(hot, hot + unit.len()) =~= unit);
    if has_cold_unit(b) {
        let cold = cold_offset(b, isa, start) - start;
        assert(code.subrange(cold, cold + unit.len()) =~= unit);
    }
}

/// The comparison of an exit stands on both of its paths: right before the patch
/// unit, and, if the exit has a deadline, right behind that unit, where the
/// deadline path begins.
pub proof fn lemma_comparison_on_both_paths(b: Boundary, isa: TargetIsa, start: int)
    requires
        startable(isa, start),
        has_unit(b),
        !b.check,
    ensures
        ({
            let compare = b.own_compare(isa.arch);
            let offset = b.map_offset(isa, start);
            let code = b.code(isa, start);
            &&& stands_at(code, start, offset - compare.len(), compare)
            &&& has_cold_unit(b) ==> stands_at(
                code,
                start,
                offset + isa.arch.patch_width(),
                compare,
            )
        }),
{
    let compare = b.own_compare(isa.arch);
    let code = b.code(isa, start);
    let hot = b.map_offset(isa, start) - start;
    assert(code.subrange(hot - compare.len(), hot) =~= compare);
    if has_cold_unit(b) {
        let after = hot + isa.arch.patch_width();
        assert(code.subrange(after, after + compare.len()) =~= compare);
    }
}

/// The two patch units of an exit do not overlap, so that patching one leaves
/// the other as it is, and both can be patched in either order.
pub proof fn lemma_units_are_independent(
    b: Boundary,
    isa: TargetIsa,
    start: int,
    code: Seq<u8>,
    window: Seq<u8>,
    other: Seq<u8>,
)
    requires
        startable(isa, start),
        has_cold_unit(b),
        cold_offset(b, isa, start) + isa.arch.patch_width() <= code.len(),
        window.len() == isa.arch.patch_width(),
        other.len() == isa.arch.patch_width(),
    ensures
        ({
            let width = isa.arch.patch_width() as int;
            let hot = b.map_offset(isa, start);
            let cold = cold_offset(b, isa, start);
            &&& hot + width <= cold
            &&& bytes::splice(code, hot, window).subrange(cold, cold + width) == code.subrange(
                cold,
                cold + width,
            )
            &&& bytes::splice(code, cold, window).subrange(hot, hot + width) == code.subrange(
                hot,
                hot + width,
            )
            &&& bytes::splice(bytes::splice(code, hot, window), cold, other) == bytes::splice(
                bytes::splice(code, cold, other),
                hot,
                window,
            )
        }),
{
    let width = isa.arch.patch_width() as int;
    let hot = b.map_offset(isa, start);
    let cold = cold_offset(b, isa, start);
    assert(bytes::splice(code, hot, window).subrange(cold, cold + width) =~= code.subrange(
        cold,
        cold + width,
    ));
    assert(bytes::splice(code, cold, window).subrange(hot, hot + width) =~= code.subrange(
        hot,
        hot + width,
    ));
    bytes::lemma_apart_windows_commute(code, hot, window, cold, other);
}

/// `target` is in reach of a branch in a patch unit at `address`.
pub open spec fn in_reach(arch: Arch, address: int, target: int) -> bool {
    match arch {
        Arch::X64 => i32::MIN <= target - (address + 5) <= i32::MAX,
        Arch::AArch64 => -0x800_0000 <= target - address < 0x800_0000,
    }
}

/// A unit of emitted code, placed at an aligned address, can be patched to every
/// aligned target in reach, and to no other.
pub proof fn lemma_aligned_units_can_be_patched(
    arch: Arch,
    offset: u32,
    len: nat,
    base: u64,
    target: u64,
)
    requires
        offset as int % arch.patch_width() as int == 0,
        base as int % arch.patch_width() as int == 0,
        arch == Arch::AArch64 ==> target as int % 4 == 0,
        offset + arch.patch_width() <= len <= usize::MAX,
        base + offset <= u64::MAX,
    ensures
        patch::branch_window(offset, arch.patch_width(), len, base, target) is Ok <==> in_reach(
            arch,
            base + offset,
            target as int,
        ),
{
    let address = base + offset;
    match arch {
        Arch::X64 => {
            assert(address % 8 == 0) by (nonlinear_arith)
                requires
                    address == base + offset,
                    offset as int % 8 == 0,
                    base as int % 8 == 0,
            ;
            assert(patch::branch_window(offset, 8, len, base, target) == patch::x64_window(
                address,
                target,
            ));
        },
        Arch::AArch64 => {
            assert(address % 4 == 0) by (nonlinear_arith)
                requires
                    address == base + offset,
                    offset as int % 4 == 0,
                    base as int % 4 == 0,
            ;
            assert(patch::branch_window(offset, 4, len, base, target) == patch::aarch64_window(
                address,
                target,
            ));
        },
    }
}

proof fn lemma_fault_group(b: Boundary, count: nat)
    requires
        count <= b.values@.len() <= usize::MAX,
    ensures
        forall|j: int|
            0 <= j < b.fault_requests(count).len() ==> {
                let r = #[trigger] b.fault_requests(count)[j];
                &&& r.index < count
                &&& b.values@[r.index as int].0 is Register
                &&& r.constraint == OperandConstraint::Any
                &&& r.kind == OperandKind::Use
                &&& r.pos == b.fault_pos
            },
        forall|j: int, k: int|
            0 <= j < k < b.fault_requests(count).len() ==> (#[trigger] b.fault_requests(
                count,
            )[j]).index < (#[trigger] b.fault_requests(count)[k]).index,
        forall|i: int|
            0 <= i < count && (#[trigger] b.values@[i]).0 is Register ==> exists|j: int|
                0 <= j < b.fault_requests(count).len() && (#[trigger] b.fault_requests(
                    count,
                )[j]).index == i,
    decreases count,
{
    if count > 0 {
        lemma_fault_group(b, (count - 1) as nat);
        let before = b.fault_requests((count - 1) as nat);
        let after = b.fault_requests(count);
        assert forall|i: int|
            0 <= i < count && (#[trigger] b.values@[i]).0 is Register implies exists|j: int|
            0 <= j < after.len() && (#[trigger] after[j]).index == i by {
            if i == count - 1 {
                assert(after[after.len() - 1].index == i);
            } else {
                let j = choose|j: int| 0 <= j < before.len() && (#[trigger] before[j]).index == i;
                assert(after[j].index == i);
            }
        }
    }
}

/// A faulting instruction asks, in the caller's order, for each operand that
/// needs a place and for nothing else; each is read, may be anywhere, and lives as
/// long as the boundary says.
pub proof fn lemma_fault_requests_cover_operands(b: Boundary)
    requires
        b.values@.len() <= usize::MAX,
    ensures
        well_planned(b.fault_requests(b.values@.len()), b.values@),
        forall|j: int|
            0 <= j < b.fault_requests(b.values@.len()).len() ==> {
                let r = #[trigger] b.fault_requests(b.values@.len())[j];
                &&& r.constraint == OperandConstraint::Any
                &&& r.kind == OperandKind::Use
                &&& r.pos == b.fault_pos
            },
        forall|j: int, k: int|
            0 <= j < k < b.fault_requests(b.values@.len()).len() ==> (#[trigger] b.fault_requests(
                b.values@.len(),
            )[j]).index < (#[trigger] b.fault_requests(b.values@.len())[k]).index,
        forall|i: int|
            0 <= i < b.values@.len() && (#[trigger] b.values@[i]).0 is Register ==> exists|j: int|
                0 <= j < b.fault_requests(b.values@.len()).len() && (#[trigger] b.fault_requests(
                    b.values@.len(),
                )[j]).index == i,
{
    lemma_fault_group(b, b.values@.len());
}

/// The map of a boundary reports each allocation at the operand that it was made
/// for; what needed no place is reported as before.
pub proof fn lemma_maps_report_allocations(
    before: Boundary,
    after: Boundary,
    allocations: Seq<Allocation>,
    frame: FrameLayout,
)
    requires
        before.values@.len() <= usize::MAX,
        before.plan().len() <= allocations.len(),
        after.values@ == boundary::visit::<AllocationConsumer>(
            allocations,
            before.values@,
            before.plan(),
        ).1,
    ensures
        after.located(frame).len() == before.values@.len(),
        forall|j: int|
            0 <= j < before.plan().len() ==> after.located(frame)[(
            #[trigger] before.plan()[j]).index as int] == (LocatedValue {
                ty: before.values@[before.plan()[j].index as int].1,
                location: Boundary::location(
                    frame,
                    BoundaryValue::Register(allocations[j].place()),
                ),
            }),
        forall|i: int|
            0 <= i < before.values@.len() && !((#[trigger] before.values@[i]).0 is Register)
                ==> after.located(frame)[i] == before.located(frame)[i],
{
    lemma_plan_covers_operands(before);
    lemma_allocations_reach_operands(allocations, before.values@, before.plan());
    assert forall|i: int|
        0 <= i < before.values@.len() && !((
        #[trigger] before.values@[i]).0 is Register) implies after.located(frame)[i]
        == before.located(frame)[i] by {
        assert forall|j: int| 0 <= j < before.plan().len() implies (
        #[trigger] before.plan()[j]).index != i by {
            assert(before.values@[before.plan()[j].index as int].0 is Register);
        }
        assert(after.values@[i] == before.values@[i]);
    }
}

proof fn lemma_no_requests(b: Boundary, compared: bool, count: nat)
    requires
        count <= b.values@.len(),
        forall|i: int| 0 <= i < b.values@.len() ==> !((#[trigger] b.values@[i]).0 is Register),
    ensures
        b.requests(compared, count).len() == 0,
        b.fault_requests(count).len() == 0,
    decreases count,
{
    if count > 0 {
        lemma_no_requests(b, compared, (count - 1) as nat);
        let _ = b.values@[count - 1];
    }
}

/// A boundary whose operands are all literals asks the allocator for nothing,
/// and its code is that of a boundary without operands.
pub proof fn lemma_literals_cost_nothing(b: Boundary, bare: Boundary, isa: TargetIsa, start: int)
    requires
        b.same_but_values(bare),
        b.compare is None,
        bare.values@.len() == 0,
        forall|i: int| 0 <= i < b.values@.len() ==> (#[trigger] b.values@[i]).0 is Constant,
    ensures
        b.plan().len() == 0,
        b.fault_requests(b.values@.len()).len() == 0,
        b.code(isa, start) == bare.code(isa, start),
        b.map_offset(isa, start) == bare.map_offset(isa, start),
{
    lemma_no_requests(b, true, b.values@.len());
    lemma_no_requests(b, false, b.values@.len());
    assert(b.own_compare(isa.arch) == bare.own_compare(isa.arch));
    assert(b.lead(isa.arch) == bare.lead(isa.arch));
    assert(b.cold(isa.arch) == bare.cold(isa.arch));
}

/// In a fragment that breaks no rule, only exits have comparisons and costs. A
/// cost is in range, and a comparison is of two operands of the same type, `I32`
/// or `I64`, that are in registers.
pub proof fn lemma_valid_exits(
    isa: TargetIsa,
    b: Boundary,
    ctx: Lower,
    i: int,
    opcode: Opcode,
    imm: i64,
)
    requires
        validate::first_violation(*ctx.f, isa) is None,
        0 <= i < validate::program(*ctx.f).len(),
        validate::data_at(*ctx.f, validate::program(*ctx.f), i) == (InstructionData::NixeBoundary {
            opcode,
            imm,
        }),
        lower::is_use(b, ctx, validate::program(*ctx.f)[i], opcode, imm),
    ensures
        !b.exit ==> b.compare is None && b.poll_cost is None,
        b.poll_cost matches Some(cost) ==> cost <= MAX_COST,
        b.compare matches Some(c) ==> {
            &&& c.lhs < b.values@.len() && c.rhs < b.values@.len()
            &&& b.values@[c.lhs as int].0 is Register && b.values@[c.rhs as int].0 is Register
            &&& b.values@[c.lhs as int].1 == b.values@[c.rhs as int].1
            &&& b.values@[c.lhs as int].1 == Type::I32 || b.values@[c.lhs as int].1 == Type::I64
        },
{
    let f = *ctx.f;
    let order = validate::program(f);
    let id = ir::word64(imm);
    let inst = order[i];
    let named = if opcode == Opcode::NixeFaultEnd {
        validate::lemma_span_end_has_begin(f, i, imm)
    } else {
        i
    };
    assert(validate::given_id(validate::data_at(f, order, named)) == Some(imm));
    assert(imm >= 0);
    if b.compare is Some || b.poll_cost is Some {
        if b.compare is Some {
            assert(f.nixe_exit_compares@.contains_key(id));
        } else {
            assert(f.nixe_exit_costs@.contains_key(id));
        }
        assert(validate::find(f, order, id, false) is Some);
        let j = validate::lemma_found_is_named(f, order, id, false);
        let other = validate::given_id(validate::data_at(f, order, j))->Some_0;
        assert(other >= 0);
        assert(other == imm);
        assert(named == j);
    }
    lemma_uses_keep_arguments(b, ctx, inst, opcode, imm);
    if let Some(c) = b.compare {
        assert(b.compared(c.lhs as int) && b.compared(c.rhs as int));
        let _ = b.values@[c.lhs as int];
        let _ = b.values@[c.rhs as int];
    }
}

/// In a fragment that breaks no rule, the constraints of an entry, if it has any,
/// are one per result; each asks for a register that the target lets hold the
/// result, and none for a register that another asks for.
pub proof fn lemma_valid_entries(isa: TargetIsa, b: Boundary, ctx: Lower, i: int, imm: i64)
    requires
        validate::first_violation(*ctx.f, isa) is None,
        0 <= i < validate::program(*ctx.f).len(),
        validate::data_at(*ctx.f, validate::program(*ctx.f), i) == (InstructionData::NixeEntry {
            imm,
        }),
        lower::is_entry(b, ctx, validate::program(*ctx.f)[i], imm),
    ensures
        b.entry_constraints@.len() == 0 || b.entry_constraints@.len() == b.values@.len(),
        forall|k: int|
            0 <= k < b.entry_constraints@.len() ==> validate::constraint_allowed(
                isa.arch,
                b.values@[k].1,
                #[trigger] b.entry_constraints@[k],
            ),
        validate::disjoint(b.entry_constraints@),
        b.constraints_encodable(),
{
    let f = *ctx.f;
    let order = validate::program(f);
    let id = ir::word64(imm);
    let inst = order[i];
    lemma_entries_define_results(b, ctx, inst, imm);
    if f.nixe_entry_constraints@.contains_key(id) {
        let constraints = f.nixe_entry_constraints@[id]@;
        assert(!validate::entry_breaks(f, order, isa.arch, id, validate::Violation::EntryMissing));
        assert(!validate::entry_breaks(f, order, isa.arch, id, validate::Violation::EntryCount));
        assert(!validate::entry_breaks(f, order, isa.arch, id, validate::Violation::EntryRegister));
        assert(!validate::entry_breaks(f, order, isa.arch, id, validate::Violation::EntryOverlap));
        let j = validate::lemma_found_is_named(f, order, id, true);
        assert(validate::given_id(validate::data_at(f, order, i)) == Some(imm));
        let other = validate::given_id(validate::data_at(f, order, j))->Some_0;
        assert(imm >= 0 && other >= 0);
        assert(other == imm);
        assert(i == j);
        assert forall|k: int| 0 <= k < b.entry_constraints@.len() implies validate::constraint_allowed(
            isa.arch,
            b.values@[k].1,
            #[trigger] b.entry_constraints@[k],
        ) by {
            let _ = constraints[k];
            let _ = b.values@[k];
        }
    }
    assert(b.constraints_encodable()) by {
        assert forall|k: int|
            0 <= k < b.values@.len() && (#[trigger] b.values@[k]).0 is Register implies (
        b.entry_constraint(k) matches EntryConstraint::Register { index, .. } ==> index
            < reg::REGS_PER_CLASS) by {
            if k < b.entry_constraints@.len() {
                assert(validate::constraint_allowed(
                    isa.arch,
                    b.values@[k].1,
                    b.entry_constraints@[k],
                ));
            }
        }
    }
}

/// The operands of a valid entry can be collected for the allocator.
pub proof fn lemma_valid_entries_are_collectable(
    isa: TargetIsa,
    b: Boundary,
    ctx: Lower,
    i: int,
    imm: i64,
)
    requires
        validate::first_violation(*ctx.f, isa) is None,
        0 <= i < validate::program(*ctx.f).len(),
        validate::data_at(*ctx.f, validate::program(*ctx.f), i) == (InstructionData::NixeEntry {
            imm,
        }),
        lower::is_entry(b, ctx, validate::program(*ctx.f)[i], imm),
        Boundary::lowerable(ctx, validate::program(*ctx.f)[i]),
    ensures
        collectable(b.plan(), b.values@),
{
    let inst = validate::program(*ctx.f)[i];
    lemma_valid_entries(isa, b, ctx, i, imm);
    lemma_plan_covers_operands(b);
    let plan = b.plan();
    assert forall|j: int| 0 <= j < plan.len() implies (b.values@[(
    #[trigger] plan[j]).index as int].0 matches BoundaryValue::Register(reg)
        && OperandCollector::accepts(
        Seq::empty(),
        reg,
        plan[j].constraint,
        plan[j].kind,
        plan[j].pos,
    )) by {
        let k = plan[j].index as int;
        assert(plan[j] == b.request(k));
        assert(b.values@[k] == lower::entry_values(ctx, inst)[k]);
        let reg = lower::entry_reg(ctx, inst, k);
        assert(b.values@[k].0 == BoundaryValue::Register(reg));
        if k < b.entry_constraints@.len() {
            assert(validate::constraint_allowed(
                isa.arch,
                b.values@[k].1,
                b.entry_constraints@[k],
            ));
        }
    }
}

/// The operands of any other boundary can be collected if its arguments are in
/// virtual registers.
pub proof fn lemma_uses_are_collectable(
    b: Boundary,
    ctx: Lower,
    inst: Inst,
    opcode: Opcode,
    imm: i64,
)
    requires
        lower::is_use(b, ctx, inst, opcode, imm),
        ctx.inputs(inst).len() <= usize::MAX,
        forall|v: int|
            0 <= v < ctx.value_regs@.len() ==> (#[trigger] ctx.value_regs@[v] matches Reg::Virtual {
                index,
                ..
            } && index < MAX_VREGS),
        forall|k: int|
            0 <= k < ctx.inputs(inst).len() ==> (#[trigger] ctx.inputs(inst)[k]).0
                < ctx.value_regs@.len(),
    ensures
        collectable(b.plan(), b.values@),
{
    lemma_plan_covers_operands(b);
    let plan = b.plan();
    assert forall|j: int| 0 <= j < plan.len() implies (b.values@[(
    #[trigger] plan[j]).index as int].0 matches BoundaryValue::Register(reg)
        && OperandCollector::accepts(
        Seq::empty(),
        reg,
        plan[j].constraint,
        plan[j].kind,
        plan[j].pos,
    )) by {
        let k = plan[j].index as int;
        assert(plan[j] == b.request(k));
        assert(b.values@[k] == lower::use_values(ctx, inst, ir::word64(imm))[k]);
        let input = ctx.inputs(inst)[k];
        let _ = ctx.value_regs@[input.0 as int];
    }
}

/// The allocator has met the request.
pub open spec fn meets(allocation: Allocation, constraint: OperandConstraint) -> bool {
    match constraint {
        OperandConstraint::Any => true,
        OperandConstraint::Reg => allocation is Reg,
        OperandConstraint::FixedReg(preg) => allocation == Allocation::Reg(preg),
    }
}

/// The allocator has met all requests of a plan, in its order.
pub open spec fn all_met(plan: Seq<OperandRequest>, allocations: Seq<Allocation>) -> bool {
    &&& plan.len() <= allocations.len()
    &&& forall|j: int|
        0 <= j < plan.len() ==> meets(allocations[j], (#[trigger] plan[j]).constraint)
}

/// Once all requests are met, the operands that an exit compares are in physical
/// registers.
pub proof fn lemma_compared_operands_get_registers(
    before: Boundary,
    after: Boundary,
    allocations: Seq<Allocation>,
)
    requires
        before.values@.len() <= usize::MAX,
        before.entry_constraints@.len() == 0,
        before.compare matches Some(c) ==> {
            &&& c.lhs < before.values@.len() && before.values@[c.lhs as int].0 is Register
            &&& c.rhs < before.values@.len() && before.values@[c.rhs as int].0 is Register
        },
        all_met(before.plan(), allocations),
        after.same_but_values(before),
        after.values@ == boundary::visit::<AllocationConsumer>(
            allocations,
            before.values@,
            before.plan(),
        ).1,
    ensures
        after.comparable(),
{
    lemma_plan_covers_operands(before);
    lemma_allocations_reach_operands(allocations, before.values@, before.plan());
    if let Some(c) = before.compare {
        let plan = before.plan();
        let _ = before.values@[c.lhs as int];
        let _ = before.values@[c.rhs as int];
        let j = choose|j: int| 0 <= j < plan.len() && plan[j] == before.request(c.lhs as int);
        let k = choose|k: int| 0 <= k < plan.len() && plan[k] == before.request(c.rhs as int);
        assert(plan[j].index == c.lhs && plan[k].index == c.rhs);
        assert(plan[j].constraint == OperandConstraint::Reg);
        assert(plan[k].constraint == OperandConstraint::Reg);
    }
}

/// Once all requests are met, the map of an entry reports each result in the
/// register that its caller asked for.
pub proof fn lemma_constrained_results_are_reported(
    before: Boundary,
    after: Boundary,
    allocations: Seq<Allocation>,
    frame: FrameLayout,
    i: int,
    index: u8,
    vector: bool,
)
    requires
        before.values@.len() <= usize::MAX,
        0 <= i < before.values@.len(),
        before.values@[i].0 is Register,
        before.entry_constraint(i) == (EntryConstraint::Register { index, vector }),
        index < reg::REGS_PER_CLASS,
        all_met(before.plan(), allocations),
        after.values@ == boundary::visit::<AllocationConsumer>(
            allocations,
            before.values@,
            before.plan(),
        ).1,
    ensures
        after.located(frame)[i].location == (Location::Register { index, vector }),
{
    lemma_plan_covers_operands(before);
    lemma_maps_report_allocations(before, after, allocations, frame);
    let plan = before.plan();
    let _ = before.values@[i];
    let j = choose|j: int| 0 <= j < plan.len() && plan[j] == before.request(i);
    assert(plan[j].index == i);
    lemma_fixed_registers_are_reported(index, vector, frame);
}

/// A boundary of a valid fragment that uses values can be emitted once its
/// requests are met with registers of the target and slots of the frame.
pub proof fn lemma_valid_uses_are_emittable(
    isa: TargetIsa,
    before: Boundary,
    after: Boundary,
    ctx: Lower,
    i: int,
    opcode: Opcode,
    imm: i64,
    allocations: Seq<Allocation>,
    frame: FrameLayout,
)
    requires
        validate::first_violation(*ctx.f, isa) is None,
        0 <= i < validate::program(*ctx.f).len(),
        validate::data_at(*ctx.f, validate::program(*ctx.f), i) == (InstructionData::NixeBoundary {
            opcode,
            imm,
        }),
        lower::is_use(before, ctx, validate::program(*ctx.f)[i], opcode, imm),
        before.values@.len() <= usize::MAX,
        all_met(before.plan(), allocations),
        forall|j: int|
            0 <= j < allocations.len() ==> (#[trigger] allocations[j] matches Allocation::Reg(preg)
                ==> preg.encoding() < isa.arch.bank_size()),
        after.same_but_values(before),
        after.values@ == boundary::visit::<AllocationConsumer>(
            allocations,
            before.values@,
            before.plan(),
        ).1,
        after.placed(frame),
    ensures
        after.emittable(isa, frame),
{
    lemma_valid_exits(isa, before, ctx, i, opcode, imm);
    lemma_compared_operands_get_registers(before, after, allocations);
    lemma_plan_covers_operands(before);
    lemma_allocations_reach_operands(allocations, before.values@, before.plan());
    if let Some(c) = before.compare {
        let plan = before.plan();
        let _ = before.values@[c.lhs as int];
        let _ = before.values@[c.rhs as int];
        let j = choose|j: int| 0 <= j < plan.len() && plan[j] == before.request(c.lhs as int);
        let k = choose|k: int| 0 <= k < plan.len() && plan[k] == before.request(c.rhs as int);
        assert(plan[j].index == c.lhs && plan[k].index == c.rhs);
        assert(allocations[j] is Reg && allocations[k] is Reg);
    }
}

} // verus!
