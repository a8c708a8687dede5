//! The parts of the library, on concrete values.

use std::collections::BTreeMap;

use nixe_boundary::boundary::{Boundary, BoundaryValue};
use nixe_boundary::bridge::{cycle, move_register, vector_transfer};
use nixe_boundary::buffer::MachBuffer;
use nixe_boundary::bytes::{put_bytes, put_le32, put_repeated, write_window};
use nixe_boundary::dead_code::remove_dead_code;
use nixe_boundary::fragments::{
    constrained_fragment, destination, discarded_conversions, fast_fragment, fault_fragment,
    fragment, source,
};
use nixe_boundary::frame::FrameLayout;
use nixe_boundary::ir::{imm_bits, Block, BlockCall, Function, Inst, InstructionData, Opcode, Value};
use nixe_boundary::isa::{Arch, TargetIsa};
use nixe_boundary::lower::Lower;
use nixe_boundary::reg::{
    Allocation, AllocationConsumer, OperandCollector, OperandPos, PReg, Reg, RegClass,
};
use nixe_boundary::state_map::{
    EntryConstraint, ExitCompare, LocatedValue, Location, PollCheckpoint,
};
use nixe_boundary::types::Type;
use nixe_boundary::validate::validate;

const FRAME: FrameLayout = FrameLayout { transfer_bytes: 64, stackslots_size: 16, frame_bytes: 256 };

fn isa(arch: Arch) -> TargetIsa {
    TargetIsa { arch, nixe_abi: true, landings: false }
}

fn boundary(values: Vec<(BoundaryValue, Type)>) -> Boundary {
    Boundary {
        id: 9,
        entry: false,
        exit: false,
        check: false,
        poll_cost: None,
        charge: None,
        compare: None,
        fault_pos: OperandPos::Early,
        values,
        entry_constraints: Vec::new(),
    }
}

fn virtual_reg(index: usize, class: RegClass) -> BoundaryValue {
    BoundaryValue::Register(Reg::Virtual { index, class })
}

fn real_reg(hw_enc: usize) -> BoundaryValue {
    BoundaryValue::Register(Reg::Real(PReg::new(hw_enc, RegClass::Int)))
}

// ---- Bytes, types and registers ----

#[test]
fn words_are_little_endian() {
    let mut bytes = Vec::new();
    put_le32(&mut bytes, 0x1234_5678);
    put_repeated(&mut bytes, 0x90, 2);
    put_bytes(&mut bytes, &[1, 2, 3]);
    assert_eq!(bytes, [0x78, 0x56, 0x34, 0x12, 0x90, 0x90, 1, 2, 3]);
    write_window(&mut bytes, 3, &[7, 8]);
    assert_eq!(bytes, [0x78, 0x56, 0x34, 7, 8, 0x90, 1, 2, 3]);
}

#[test]
fn types_have_widths_and_classes() {
    for (ty, bits, class) in [
        (Type::I8, 8, RegClass::Int),
        (Type::I16, 16, RegClass::Int),
        (Type::I32, 32, RegClass::Int),
        (Type::I64, 64, RegClass::Int),
        (Type::I128, 128, RegClass::Int),
        (Type::F16, 16, RegClass::Float),
        (Type::F32, 32, RegClass::Float),
        (Type::F64, 64, RegClass::Float),
        (Type::F128, 128, RegClass::Float),
        (Type::I8X2, 16, RegClass::Float),
        (Type::I8X4, 32, RegClass::Float),
        (Type::I8X8, 64, RegClass::Float),
        (Type::I8X16, 128, RegClass::Float),
        (Type::I16X2, 32, RegClass::Float),
        (Type::I16X4, 64, RegClass::Float),
        (Type::I16X8, 128, RegClass::Float),
        (Type::I32X2, 64, RegClass::Float),
        (Type::I32X4, 128, RegClass::Float),
        (Type::I64X2, 128, RegClass::Float),
        (Type::F16X2, 32, RegClass::Float),
        (Type::F16X4, 64, RegClass::Float),
        (Type::F16X8, 128, RegClass::Float),
        (Type::F32X2, 64, RegClass::Float),
        (Type::F32X4, 128, RegClass::Float),
        (Type::F64X2, 128, RegClass::Float),
    ] {
        assert_eq!(ty.bits(), bits);
        assert_eq!(ty.bytes() * 8, bits);
        assert_eq!(ty.reg_class(), class);
    }
}

#[test]
fn immediates_are_read_as_words() {
    assert_eq!(imm_bits(-1), u64::MAX);
    assert_eq!(imm_bits(i64::MIN), 1 << 63);
    assert_eq!(imm_bits(7), 7);
}

#[test]
fn physical_registers_agree_with_the_allocator() {
    for (class, outside) in [
        (RegClass::Int, regalloc2::RegClass::Int),
        (RegClass::Float, regalloc2::RegClass::Float),
        (RegClass::Vector, regalloc2::RegClass::Vector),
    ] {
        for hw_enc in 0..64 {
            let preg = PReg::new(hw_enc, class);
            assert_eq!(preg.index, regalloc2::PReg::new(hw_enc, outside).index());
            assert_eq!(usize::from(preg.hw_enc()), hw_enc);
            assert_eq!(preg.class(), class);
        }
    }
    assert_eq!(PReg::new(5, RegClass::Float).index, 69);
}

#[test]
fn constraints_have_words() {
    assert_eq!(EntryConstraint::Any.to_text(), "any");
    for (index, vector, text) in [
        (0, false, "integer 0"),
        (9, true, "vector 9"),
        (10, false, "integer 10"),
        (31, true, "vector 31"),
        (105, false, "integer 105"),
        (255, true, "vector 255"),
    ] {
        assert_eq!(EntryConstraint::Register { index, vector }.to_text(), text);
    }
}

#[test]
fn targets_reserve_registers() {
    let allowed = |arch: Arch| -> Vec<u8> {
        (0..=255).filter(|&index| arch.allows_register(Type::I64, index, false)).collect()
    };
    assert_eq!(allowed(Arch::X64), [0, 1, 2, 3, 6, 7, 8, 9, 10, 12]);
    assert_eq!(allowed(Arch::AArch64), [(0..16).collect::<Vec<_>>(), (22..29).collect()].concat());
    assert!(Arch::X64.allows_register(Type::I8X16, 15, true));
    assert!(!Arch::X64.allows_register(Type::I8X16, 16, true));
    assert!(Arch::AArch64.allows_register(Type::F64, 31, true));
    assert!(!Arch::AArch64.allows_register(Type::F64, 3, false));
    assert!(!Arch::AArch64.allows_register(Type::I64, 3, true));
}

// ---- Operands ----

#[test]
fn compared_operands_are_collected_first() {
    let mut b = boundary(vec![
        (virtual_reg(10, RegClass::Int), Type::I64),
        (BoundaryValue::Constant([1, 2]), Type::I64),
        (virtual_reg(11, RegClass::Float), Type::I8X16),
        (virtual_reg(12, RegClass::Int), Type::I64),
    ]);
    b.exit = true;
    b.compare = Some(ExitCompare { lhs: 3, rhs: 0 });
    let mut collector = OperandCollector::new();
    b.operands(&mut collector);
    let expected: Vec<u64> = [
        (10, regalloc2::RegClass::Int, regalloc2::OperandConstraint::Reg),
        (12, regalloc2::RegClass::Int, regalloc2::OperandConstraint::Reg),
        (11, regalloc2::RegClass::Float, regalloc2::OperandConstraint::Any),
    ]
    .into_iter()
    .map(|(vreg, class, constraint)| {
        regalloc2::Operand::new(
            regalloc2::VReg::new(vreg, class),
            constraint,
            regalloc2::OperandKind::Use,
            regalloc2::OperandPos::Early,
        )
        .bits()
    })
    .collect();
    assert_eq!(collector.operands, expected);
    assert_eq!(collector.operands[0], 10 + (1 << 35) + (1 << 36));
}

#[test]
fn entry_results_are_defined_where_the_caller_asks() {
    let mut b = boundary(vec![
        (virtual_reg(1, RegClass::Int), Type::I64),
        (BoundaryValue::Unused, Type::I64),
        (virtual_reg(2, RegClass::Float), Type::I8X16),
        (virtual_reg(3, RegClass::Int), Type::I64),
    ]);
    b.entry = true;
    b.entry_constraints = vec![
        EntryConstraint::Register { index: 7, vector: false },
        EntryConstraint::Register { index: 8, vector: false },
        EntryConstraint::Register { index: 3, vector: true },
    ];
    let mut collector = OperandCollector::new();
    b.operands(&mut collector);
    let fixed = |hw_enc, class| {
        regalloc2::OperandConstraint::FixedReg(regalloc2::PReg::new(hw_enc, class))
    };
    let (int, float) = (regalloc2::RegClass::Int, regalloc2::RegClass::Float);
    let expected: Vec<u64> = [
        (regalloc2::VReg::new(1, int), fixed(7, int)),
        (regalloc2::VReg::new(2, float), fixed(3, float)),
        (regalloc2::VReg::new(3, int), regalloc2::OperandConstraint::Any),
    ]
    .into_iter()
    .map(|(vreg, constraint)| {
        regalloc2::Operand::new(
            vreg,
            constraint,
            regalloc2::OperandKind::Def,
            regalloc2::OperandPos::Late,
        )
        .bits()
    })
    .collect();
    assert_eq!(collector.operands, expected);
}

#[test]
fn faulting_operands_live_as_long_as_the_boundary_says() {
    for (pos, outside) in [
        (OperandPos::Early, regalloc2::OperandPos::Early),
        (OperandPos::Late, regalloc2::OperandPos::Late),
    ] {
        let mut b = boundary(vec![
            (virtual_reg(4, RegClass::Int), Type::I64),
            (BoundaryValue::Constant([3, 0]), Type::I64),
            (virtual_reg(5, RegClass::Vector), Type::I64),
        ]);
        b.fault_pos = pos;
        let mut collector = OperandCollector::new();
        b.fault_operands(&mut collector);
        let expected: Vec<u64> =
            [(4, regalloc2::RegClass::Int), (5, regalloc2::RegClass::Vector)]
                .into_iter()
                .map(|(vreg, class)| {
                    regalloc2::Operand::new(
                        regalloc2::VReg::new(vreg, class),
                        regalloc2::OperandConstraint::Any,
                        regalloc2::OperandKind::Use,
                        outside,
                    )
                    .bits()
                })
                .collect();
        assert_eq!(collector.operands, expected);
    }
}

#[test]
fn allocations_come_back_in_the_order_of_collection() {
    let mut b = boundary(vec![
        (virtual_reg(10, RegClass::Int), Type::I64),
        (BoundaryValue::Constant([5, 6]), Type::I8X16),
        (virtual_reg(11, RegClass::Float), Type::I8X16),
        (virtual_reg(12, RegClass::Int), Type::I64),
    ]);
    b.exit = true;
    b.compare = Some(ExitCompare { lhs: 3, rhs: 3 });
    let mut consumer = AllocationConsumer::new(vec![
        Allocation::Reg(PReg::new(2, RegClass::Int)),
        Allocation::Stack(3),
        Allocation::Reg(PReg::new(9, RegClass::Float)),
    ]);
    b.operands(&mut consumer);
    let map = b.fault_map(&FRAME);
    assert_eq!(map.id, 9);
    let location = |ty, location| LocatedValue { ty, location };
    assert_eq!(
        map.values,
        [
            location(Type::I64, Location::Spill { offset: 64 + 16 + 24 }),
            location(Type::I8X16, Location::Constant([5, 6])),
            location(Type::I8X16, Location::Register { index: 9, vector: true }),
            location(Type::I64, Location::Register { index: 2, vector: false }),
        ]
    );
    let (lhs, rhs, ty) = b.comparison().unwrap();
    assert_eq!((lhs, ty), (Reg::Real(PReg::new(2, RegClass::Int)), Type::I64));
    assert_eq!(lhs, rhs);
}

#[test]
fn repeated_arguments_share_a_location() {
    let mut f = source();
    let exit = *f.blocks[0].insts.last().unwrap();
    let again = f.insts[exit.0].args[1];
    f.insts[exit.0].args.push(again);
    let mut ctx = Lower::new(&f);
    let (mut b, _) = Boundary::lower(&mut ctx, exit).unwrap();
    let allocations: Vec<Allocation> = b
        .values
        .iter()
        .map(|(value, _)| match value {
            BoundaryValue::Register(Reg::Virtual { index, .. }) => Allocation::Stack(*index as u32),
            _ => panic!("not a register"),
        })
        .collect();
    b.operands(&mut AllocationConsumer::new(allocations));
    let values = b.fault_map(&FRAME).values;
    assert_eq!(values[1], values[6]);
    assert_eq!(values.len(), 7);
}

// ---- Maps ----

#[test]
fn markers_and_entries_have_no_patch_unit() {
    let mut b = boundary(vec![(BoundaryValue::Unused, Type::I64)]);
    b.entry = true;
    let mut sink = MachBuffer::new();
    sink.code.extend([0; 5]);
    b.record(&mut sink, &FRAME, 8);
    let map = &sink.nixe_states[0];
    assert_eq!((map.id, map.offset, map.entry, map.patch_bytes), (9, 5, true, 0));
    assert_eq!(map.values[0].location, Location::Unused);
    assert_eq!((map.poll, map.subtract_flags, map.fault_bytes), (None, false, 0));
}

#[test]
fn checkpoints_follow_by_one_or_two_units() {
    for (compare, distance) in [(None, 8), (Some(ExitCompare { lhs: 0, rhs: 1 }), 16)] {
        let mut b = boundary(vec![(real_reg(1), Type::I32), (real_reg(2), Type::I32)]);
        b.exit = true;
        b.poll_cost = Some(77);
        b.compare = compare;
        let mut sink = MachBuffer::new();
        sink.code.extend([0; 24]);
        b.record(&mut sink, &FRAME, 8);
        let map = &sink.nixe_states[0];
        assert_eq!(map.patch_bytes, 8);
        assert_eq!(map.poll, Some(PollCheckpoint { offset: 24 + distance, completed: 77 }));
        assert_eq!(map.subtract_flags, compare.is_some());
    }
}

#[test]
fn narrow_vectors_are_located_like_wide_ones() {
    let spill = |slot| BoundaryValue::Register(Reg::Spill { slot });
    let vector = BoundaryValue::Register(Reg::Real(PReg::new(14, RegClass::Float)));
    // Slot 21 starts eight bytes before the end of the frame.
    let b = boundary(vec![(spill(21), Type::I8X8), (vector, Type::F16X8), (spill(0), Type::I8X2)]);
    let located = b.locations(&FRAME);
    assert_eq!(located, b.fault_map(&FRAME).values);
    assert_eq!(
        located,
        [
            LocatedValue { ty: Type::I8X8, location: Location::Spill { offset: 248 } },
            LocatedValue {
                ty: Type::F16X8,
                location: Location::Register { index: 14, vector: true }
            },
            LocatedValue { ty: Type::I8X2, location: Location::Spill { offset: 80 } },
        ]
    );
}

#[test]
fn spill_slots_follow_the_explicit_slots() {
    assert_eq!(FRAME.spillslot_offset(0), 16);
    assert_eq!(FRAME.spillslot_offset(u32::MAX), 16 + 8 * i64::from(u32::MAX));
}

// ---- Lowering ----

#[test]
fn charges_keep_the_low_half_word() {
    let mut f = Function::new();
    let block = f.make_block();
    let data = InstructionData::UnaryImm { opcode: Opcode::NixeCharge, imm: 0x1_0007 };
    let inst = f.append_inst(block, data, Vec::new(), &[], Vec::new());
    let mut ctx = Lower::new(&f);
    let (b, outputs) = Boundary::lower(&mut ctx, inst).unwrap();
    assert_eq!((b.id, b.charge), (0, Some(7)));
    assert!(b.values.is_empty() && outputs.is_empty());
    assert!(!b.entry && !b.exit && !b.check && b.poll_cost.is_none() && b.compare.is_none());
}

#[test]
fn other_instructions_are_left_alone() {
    let f = source();
    let mut ctx = Lower::new(&f);
    assert!(Boundary::lower(&mut ctx, Inst(0)).is_none());
    assert!(ctx.lowered_uses.iter().all(|used| !used));
}

#[test]
fn entries_define_what_is_used() {
    let f = constrained_fragment();
    let mut ctx = Lower::new(&f);
    ctx.lowered_uses[0] = true;
    ctx.lowered_uses[3] = true;
    let (b, outputs) = Boundary::lower(&mut ctx, Inst(0)).unwrap();
    assert!(b.entry && !b.exit);
    assert_eq!(b.id, 1);
    assert_eq!(b.values.len(), 80);
    assert_eq!(outputs.len(), 80);
    assert_eq!(outputs[3], Reg::Virtual { index: 123, class: RegClass::Float });
    for (i, (value, ty)) in b.values.iter().enumerate() {
        assert_eq!(*ty, if i % 2 == 0 { Type::I64 } else { Type::I8X16 });
        match value {
            BoundaryValue::Register(reg) => {
                assert!(i == 0 || i == 3);
                assert_eq!(*reg, outputs[i]);
            }
            BoundaryValue::Unused => assert!(i != 0 && i != 3),
            BoundaryValue::Constant(_) => panic!("entry definitions are not constants"),
        }
    }
    assert_eq!(b.entry_constraints[1], EntryConstraint::Register { index: 7, vector: true });
    assert_eq!(ctx.next_vreg, 200);
}

#[test]
fn literals_use_no_register_unless_compared() {
    let mut f = Function::new();
    let block = f.make_block();
    let constant = |f: &mut Function, ty, imm| {
        let data = InstructionData::UnaryImm { opcode: Opcode::Iconst, imm };
        let inst = f.append_inst(block, data, Vec::new(), &[ty], Vec::new());
        f.insts[inst.0].results[0]
    };
    let args = vec![
        constant(&mut f, Type::I8, 0x1ff),
        constant(&mut f, Type::I32, -1),
        constant(&mut f, Type::I32, -2),
        constant(&mut f, Type::I16, -3),
    ];
    let data = InstructionData::NixeBoundary { opcode: Opcode::NixeExit, imm: 4 };
    let exit = f.append_inst(block, data, args, &[], Vec::new());
    f.nixe_exit_compares.insert(4, ExitCompare { lhs: 2, rhs: 1 });
    f.nixe_exit_costs.insert(4, 12);
    let mut ctx = Lower::new(&f);
    let (b, outputs) = Boundary::lower(&mut ctx, exit).unwrap();
    assert!(outputs.is_empty());
    assert!(b.exit && !b.check && !b.entry);
    assert_eq!((b.id, b.poll_cost), (4, Some(12)));
    assert_eq!(ctx.lowered_uses, [false, true, true, false]);
    let registers: Vec<Option<Reg>> = b
        .values
        .iter()
        .map(|(value, _)| match value {
            BoundaryValue::Register(reg) => Some(*reg),
            _ => None,
        })
        .collect();
    let reg = |index| Some(Reg::Virtual { index, class: RegClass::Int });
    assert_eq!(registers, [None, reg(1), reg(2), None]);
    assert!(matches!(b.values[0], (BoundaryValue::Constant([0xff, 0]), Type::I8)));
    assert!(matches!(b.values[3], (BoundaryValue::Constant([0xfffd, 0]), Type::I16)));
}

#[test]
fn integer_literals_are_equal_modulo_their_width() {
    for (ty, x, y, equal) in [
        (Type::I8, -1, 0xff, true),
        (Type::I8, 0x1ff, -1, true),
        (Type::I8, 0x7f, 0xff, false),
        (Type::I16, -1, 0xff, false),
        (Type::I16, -1, 0xffff, true),
        (Type::I32, -1, 0xffff_ffff, true),
        (Type::I32, 1, 0x1_0000_0001, true),
        (Type::I64, 1, 0x1_0000_0001, false),
        (Type::I64, -1, -1, true),
    ] {
        let mut f = Function::new();
        let block = f.make_block();
        let mut args = Vec::new();
        for imm in [x, y] {
            let data = InstructionData::UnaryImm { opcode: Opcode::Iconst, imm };
            let inst = f.append_inst(block, data, Vec::new(), &[ty], Vec::new());
            args.push(f.insts[inst.0].results[0]);
        }
        let data = InstructionData::NixeBoundary { opcode: Opcode::NixeState, imm: 0 };
        let state = f.append_inst(block, data, args, &[], Vec::new());
        let mut ctx = Lower::new(&f);
        let read = [0, 1].map(|index| Boundary::constant(&ctx, state, index).unwrap());
        let (b, _) = Boundary::lower(&mut ctx, state).unwrap();
        let words: Vec<[u64; 2]> = b
            .values
            .iter()
            .map(|(value, _)| match value {
                BoundaryValue::Constant(words) => *words,
                _ => panic!("literals are carried"),
            })
            .collect();
        assert_eq!(words, read);
        assert_eq!(words[0] == words[1], equal);
        for word in words {
            assert_eq!(word[1], 0);
            assert!(ty == Type::I64 || word[0] < 1 << ty.bits());
        }
    }
}

#[test]
fn short_vector_literals_are_not_carried() {
    let mut f = Function::new();
    let block = f.make_block();
    f.constants.push(vec![1; 8]);
    let data = InstructionData::UnaryConst { constant: 0 };
    let inst = f.append_inst(block, data, Vec::new(), &[Type::F64], Vec::new());
    let args = f.insts[inst.0].results.clone();
    let data = InstructionData::NixeBoundary { opcode: Opcode::NixeCheck, imm: 0 };
    let check = f.append_inst(block, data, args, &[], Vec::new());
    let mut ctx = Lower::new(&f);
    let (b, _) = Boundary::lower(&mut ctx, check).unwrap();
    assert!(b.check && !b.exit);
    assert!(matches!(b.values[0].0, BoundaryValue::Register(_)));
}

// ---- Emission ----

fn emitted(b: &Boundary, target: &TargetIsa, start: usize) -> MachBuffer {
    let mut sink = MachBuffer::new();
    sink.code.extend(vec![0xaa; start]);
    b.emit(&mut sink, &FRAME, target);
    sink
}

#[test]
fn charges_have_exact_bytes() {
    let mut b = boundary(Vec::new());
    b.charge = Some(3);
    let sink = emitted(&b, &isa(Arch::X64), 1);
    assert_eq!(sink.code[1..], [0x4d, 0x8d, 0xb6, 0xfd, 0xff, 0xff, 0xff]);
    assert!(sink.nixe_states.is_empty());
    let sink = emitted(&b, &isa(Arch::AArch64), 4);
    assert_eq!(sink.code[4..], 0xd1000e94u32.to_le_bytes());
    assert!(sink.nixe_states.is_empty());
}

#[test]
fn plain_exits_are_an_aligned_trap() {
    let mut b = boundary(Vec::new());
    b.exit = true;
    let sink = emitted(&b, &isa(Arch::X64), 5);
    assert_eq!(sink.code[5..], [0x90, 0x90, 0x90, 0x0f, 0x0b, 0x90, 0x90, 0x90, 0x90, 0x90, 0x90]);
    assert_eq!(sink.nixe_states[0].offset, 8);
    let sink = emitted(&b, &isa(Arch::AArch64), 4);
    assert_eq!(sink.code[4..], 0xd4200000u32.to_le_bytes());
    assert_eq!(sink.nixe_states[0].offset, 4);
}

#[test]
fn costly_compared_exits_have_two_paths() {
    let mut b = boundary(vec![(real_reg(9), Type::I64), (real_reg(2), Type::I64)]);
    b.exit = true;
    b.poll_cost = Some(256);
    b.compare = Some(ExitCompare { lhs: 0, rhs: 1 });
    let sink = emitted(&b, &isa(Arch::X64), 0);
    let poll = [0x49, 0x81, 0xee, 0, 1, 0, 0, 0x7e, 11];
    let compare = [0x49, 0x39, 0xd1];
    let trap = [0x0f, 0x0b, 0x90, 0x90, 0x90, 0x90, 0x90, 0x90];
    let expected =
        [&[0x90; 4][..], &poll, &compare, &trap, &compare, &[0x90; 5], &trap].concat();
    assert_eq!(sink.code, expected);
    let map = &sink.nixe_states[0];
    assert_eq!(map.offset, 16);
    assert_eq!(map.poll, Some(PollCheckpoint { offset: 32, completed: 256 }));

    let sink = emitted(&b, &isa(Arch::AArch64), 0);
    let words: Vec<u32> = sink
        .code
        .chunks(4)
        .map(|word| u32::from_le_bytes(word.try_into().unwrap()))
        .collect();
    assert_eq!(
        words,
        [0xf1040294, 0x5400006d, 0xeb02013f, 0xd4200000, 0xeb02013f, 0xd4200000]
    );
    assert_eq!(sink.nixe_states[0].offset, 12);
    assert_eq!(sink.nixe_states[0].poll, Some(PollCheckpoint { offset: 20, completed: 256 }));
}

#[test]
fn patch_units_are_aligned_wherever_emission_starts() {
    for start in 0..16 {
        for cost in [None, Some(1)] {
            for compare in [None, Some(ExitCompare { lhs: 0, rhs: 1 })] {
                let mut b = boundary(vec![(real_reg(0), Type::I32), (real_reg(12), Type::I32)]);
                b.exit = true;
                b.poll_cost = cost;
                b.compare = compare;
                for arch in [Arch::X64, Arch::AArch64] {
                    let start = if arch == Arch::X64 { start } else { 4 * start };
                    let sink = emitted(&b, &isa(arch), start);
                    let map = &sink.nixe_states[0];
                    let width = u32::from(map.patch_bytes);
                    assert_eq!(map.offset % width, 0);
                    let mut code = sink.code.clone();
                    map.patch_exit(&mut code, 0x4000, 0x4000).unwrap();
                    if let Some(poll) = map.poll {
                        assert_eq!(poll.offset % width, 0);
                        assert_eq!(poll.offset as usize + width as usize, code.len());
                        let unit = poll.offset as usize;
                        assert_eq!(code[unit..], sink.code[unit..]);
                        map.patch_poll(&mut code, 0x4000, 0x4000).unwrap();
                    }
                }
            }
        }
    }
}

#[test]
fn literals_leave_the_code_as_it_is() {
    let mut b = boundary(vec![(BoundaryValue::Constant([1, 2]), Type::I8X16); 30]);
    b.exit = true;
    let mut bare = boundary(Vec::new());
    bare.exit = true;
    for arch in [Arch::X64, Arch::AArch64] {
        let sink = emitted(&b, &isa(arch), 8);
        assert_eq!(sink.code, emitted(&bare, &isa(arch), 8).code);
        assert!(sink.nixe_states[0]
            .values
            .iter()
            .all(|value| value.location == Location::Constant([1, 2])));
        let mut collector = OperandCollector::new();
        b.operands(&mut collector);
        assert!(collector.operands.is_empty());
    }
}

#[test]
fn faulting_instructions_are_mapped_at_their_own_bytes() {
    let b = boundary(vec![(real_reg(6), Type::I64)]);
    let mut sink = MachBuffer::new();
    sink.code.extend([1, 2, 3]);
    b.emit_faulting(&mut sink, &FRAME, &[0x48, 0x8b, 0x06, 0x90]);
    assert_eq!(sink.code, [1, 2, 3, 0x48, 0x8b, 0x06, 0x90]);
    assert!(sink.nixe_states.is_empty());
    let map = &sink.nixe_faults[0];
    assert_eq!((map.id, map.offset, map.fault_bytes, map.patch_bytes), (9, 3, 4, 0));
    assert_eq!(map.values[0].location, Location::Register { index: 6, vector: false });
}

// ---- Bridges ----

#[test]
fn moves_have_exact_bytes() {
    for (x64, vector, dst, src, expected) in [
        (true, false, 11, 0, vec![0x49, 0x89, 0xc3]),
        (true, false, 2, 9, vec![0x4c, 0x89, 0xca]),
        (true, true, 8, 1, vec![0xf3, 0x44, 0x0f, 0x6f, 0xc1]),
        (false, false, 16, 3, 0xaa0303f0u32.to_le_bytes().to_vec()),
        (false, true, 1, 31, 0x4ebf1fe1u32.to_le_bytes().to_vec()),
    ] {
        let mut bytes = vec![0x5a];
        move_register(&mut bytes, x64, vector, dst, src);
        assert_eq!(bytes[1..], expected);
    }
    let mut bytes = Vec::new();
    vector_transfer(&mut bytes, true, 9, true);
    assert_eq!(bytes, [0xf3, 0x45, 0x0f, 0x6f, 0x8f, 0, 6, 0, 0]);
    bytes.clear();
    vector_transfer(&mut bytes, true, 1, false);
    assert_eq!(bytes, [0xf3, 0x41, 0x0f, 0x7f, 0x8f, 0, 6, 0, 0]);
    bytes.clear();
    vector_transfer(&mut bytes, false, 7, true);
    vector_transfer(&mut bytes, false, 7, false);
    assert_eq!(bytes, [0x3dc182a7u32.to_le_bytes(), 0x3d8182a7u32.to_le_bytes()].concat());
}

#[test]
fn cycles_go_through_the_scratch_register() {
    let mut bytes = Vec::new();
    cycle(&mut bytes, false, &[1, 2, 3], false);
    let words = [0xaa0103f0u32, 0xaa0303e1, 0xaa0203e3, 0xaa1003e2];
    assert_eq!(bytes, words.iter().flat_map(|word| word.to_le_bytes()).collect::<Vec<_>>());
}

// ---- Validation ----

fn refused(f: &Function, target: &TargetIsa) -> String {
    validate(f, target).unwrap_err().message()
}

fn exit_fragment(insts: &[(InstructionData, &[Type])]) -> Function {
    let mut f = Function::new();
    let block = f.make_block();
    for (data, types) in insts {
        f.append_inst(block, *data, Vec::new(), types, Vec::new());
    }
    f
}

#[test]
fn every_rule_has_its_words() {
    let x64 = isa(Arch::X64);
    let plain = TargetIsa { nixe_abi: false, ..x64 };
    let mark = |opcode, imm| (InstructionData::NixeBoundary { opcode, imm }, &[][..]);
    let charge = |imm| (InstructionData::UnaryImm { opcode: Opcode::NixeCharge, imm }, &[][..]);
    let access = |notrap| {
        (InstructionData::Memory { opcode: Opcode::Store, offset: 0, notrap }, &[][..])
    };
    let other = |opcode| (InstructionData::Other { opcode, imm: 0 }, &[][..]);
    let (start, end) = (Opcode::NixeFaultStart, Opcode::NixeFaultEnd);
    let (state, exit) = (Opcode::NixeState, Opcode::NixeExit);
    for (target, insts, words) in [
        (plain, vec![mark(exit, 1)], "boundary requires Nixe ABI"),
        (plain, vec![charge(1)], "charge requires Nixe ABI"),
        (x64, vec![mark(state, -1)], "boundaries require unique nonnegative IDs"),
        (x64, vec![mark(state, 4), mark(exit, 4)], "boundaries require unique nonnegative IDs"),
        (x64, vec![charge(0)], "charge must be between 1 and 2048"),
        (x64, vec![charge(2049)], "charge must be between 1 and 2048"),
        (x64, vec![mark(start, 1), charge(5)], "charge cannot be inside a fault span"),
        (x64, vec![mark(end, 1)], "fault delimiters must match"),
        (x64, vec![mark(start, 1), access(false), mark(end, 2)], "fault delimiters must match"),
        (x64, vec![mark(start, 1), mark(start, 2)], "fault spans cannot nest"),
        (x64, vec![mark(start, 1), mark(Opcode::NixeCheck, 2)], "fault spans cannot nest"),
        (x64, vec![mark(start, 1), mark(exit, 2)], "fault spans cannot cross control flow"),
        (x64, vec![mark(start, 1), other(Opcode::Jump)], "fault spans cannot cross control flow"),
        (x64, vec![mark(start, 1), access(false)], "fault spans cannot cross control flow"),
        (
            x64,
            vec![mark(start, 1), mark(end, 1)],
            "fault span requires a trapping memory operation",
        ),
        (
            x64,
            vec![mark(start, 1), access(true)],
            "fault span memory operations cannot be notrap",
        ),
        (
            x64,
            vec![mark(start, 1), other(Opcode::Trapnz)],
            "fault spans cannot contain non-memory traps",
        ),
    ] {
        assert_eq!(refused(&exit_fragment(&insts), &target), format!("Nixe {words}"));
    }
    let valid = vec![charge(2048), mark(start, 1), access(false), mark(end, 1), mark(exit, 2)];
    assert!(validate(&exit_fragment(&valid), &x64).is_ok());
    assert!(validate(&exit_fragment(&[other(Opcode::Return)]), &plain).is_ok());
}

#[test]
fn contracts_of_entries_and_exits_have_their_words() {
    let x64 = isa(Arch::X64);
    let mut f = fast_fragment();
    f.nixe_exit_compares.insert(2, ExitCompare { lhs: 0, rhs: 1 });
    assert_eq!(
        refused(&f, &x64),
        "Nixe exit comparison requires an exit and two I32 or two I64 arguments"
    );
    f.nixe_exit_compares.insert(2, ExitCompare { lhs: 0, rhs: 2 });
    assert!(validate(&f, &x64).is_ok());
    f.nixe_exit_costs.insert(1, 0);
    assert_eq!(
        refused(&f, &x64),
        "Nixe checkpoint requires an exit and a cost of at most 2048"
    );
    let constrained = constrained_fragment();
    assert!(validate(&constrained, &x64).is_ok());
    for (change, words) in [
        (0, "entry constraints have a missing entry ID"),
        (1, "entry constraints must match result count"),
        (2, "entry constraint has an invalid register or bank"),
        (3, "entry registers cannot overlap"),
    ] {
        let mut f = constrained.clone();
        let constraints = f.nixe_entry_constraints.get_mut(&1).unwrap();
        match change {
            0 => {
                f.nixe_entry_constraints.insert(2, Vec::new());
            }
            1 => constraints.push(EntryConstraint::Any),
            2 => constraints[2] = EntryConstraint::Register { index: 14, vector: false },
            _ => constraints[3] = EntryConstraint::Register { index: 0, vector: true },
        }
        assert_eq!(refused(&f, &x64), format!("Nixe {words}"));
    }
}

#[test]
fn sample_fragments_are_valid_on_both_targets() {
    let locations: Vec<Location> =
        (0..6).map(|i| Location::Register { index: i / 2, vector: i % 2 == 1 }).collect();
    for arch in [Arch::X64, Arch::AArch64] {
        for f in [
            fast_fragment(),
            constrained_fragment(),
            fragment(false),
            fragment(true),
            fault_fragment(0),
            fault_fragment(1),
            fault_fragment(2),
            source(),
            destination(&locations),
            discarded_conversions(false),
            discarded_conversions(true),
        ] {
            assert!(validate(&f, &isa(arch)).is_ok());
        }
    }
}

// ---- Fragments ----

fn data(f: &Function, inst: usize) -> InstructionData {
    f.insts[inst].data
}

#[test]
fn sample_fragments_have_their_listings() {
    let f = fast_fragment();
    assert_eq!(f.insts.len(), 42);
    assert_eq!(data(&f, 40), InstructionData::Other { opcode: Opcode::IaddImm, imm: 40 });
    assert_eq!(f.insts[40].args, [Value(78)]);
    assert_eq!(f.insts[41].args[78..], [Value(119), Value(79)]);

    let f = fragment(true);
    assert_eq!(f.stack_slots, [48]);
    assert!(f.blocks[1].cold && !f.blocks[0].cold);
    assert_eq!(f.blocks[0].insts.len(), 125);
    assert_eq!(f.insts[125].args.len(), 81);
    assert_eq!(f.insts[125].args[80], f.insts[125].args[0]);
    assert_eq!(f.insts[124].targets[0].block, Block(1));

    let f = fault_fragment(2);
    assert_eq!(f.insts.len(), 88);
    assert_eq!(f.insts[82].args.len(), 80);
    assert_eq!(f.insts[85].args, [Value(83), Value(81)]);
    assert_eq!(fault_fragment(1).insts[83].args, [Value(81), Value(1)]);

    let f = source();
    assert_eq!(
        data(&f, 9),
        InstructionData::Memory { opcode: Opcode::Load, offset: 544, notrap: true }
    );
    assert_eq!(
        f.insts[10].args,
        [Value(2), Value(3), Value(5), Value(6), Value(8), Value(9)]
    );

    let f = destination(&[Location::Register { index: 3, vector: true }]);
    assert_eq!(
        f.nixe_entry_constraints,
        BTreeMap::from([(20, vec![EntryConstraint::Register { index: 3, vector: true }])])
    );
    assert_eq!(
        data(&f, 7),
        InstructionData::Memory { opcode: Opcode::Store, offset: 1056, notrap: true }
    );
    assert_eq!(f.insts[7].args, [Value(5), Value(6)]);

    let mut f = discarded_conversions(true);
    assert_eq!(data(&f, 0), InstructionData::UnaryImm { opcode: Opcode::Iconst, imm: (1 << 24) + 1 });
    assert!(f.has_observable_fp_effect(Inst(1)) && !f.has_observable_fp_effect(Inst(0)));
    f.clear();
    assert!(!f.nixe_observable_fp && f.blocks.is_empty());
    assert!(!discarded_conversions(false).has_observable_fp_effect(Inst(1)));
}

#[test]
fn listings_number_results_and_instructions_in_order() {
    let f = fault_fragment(2);
    let mut next = 0;
    for (i, node) in f.insts.iter().enumerate() {
        assert_eq!(f.blocks[0].insts[i], Inst(i));
        for result in &node.results {
            assert_eq!(*result, Value(next));
            assert_eq!(f.value_defs[next], Some(Inst(i)));
            next += 1;
        }
    }
    assert_eq!(next, f.value_types.len());
    let f = fragment(false);
    assert_eq!(f.blocks[0].insts, (0..125).map(Inst).collect::<Vec<_>>());
    assert_eq!(f.blocks[1].insts, [Inst(125)]);
}

#[test]
fn instructions_can_be_inserted() {
    let mut f = source();
    let inst = f.insert_inst(
        Block(0),
        1,
        InstructionData::UnaryImm { opcode: Opcode::NixeCharge, imm: 1 },
        Vec::new(),
        &[],
        Vec::new(),
    );
    assert_eq!(inst, Inst(11));
    assert_eq!(f.blocks[0].insts[..3], [Inst(0), Inst(11), Inst(1)]);
}

// ---- Dead code ----

/// Two exits behind a branch on a literal.
fn branching(imm: i64) -> Function {
    let mut f = Function::new();
    for _ in 0..4 {
        f.make_block();
    }
    let constant = InstructionData::UnaryImm { opcode: Opcode::Iconst, imm };
    let condition = f.append_inst(Block(0), constant, Vec::new(), &[Type::I8], Vec::new());
    let args = f.insts[condition.0].results.clone();
    let call = |block| BlockCall { block: Block(block), args: Vec::new() };
    let brif = InstructionData::Other { opcode: Opcode::Brif, imm: 0 };
    f.append_inst(Block(0), brif, args, &[], vec![call(1), call(2)]);
    for block in [1, 2] {
        let exit = InstructionData::NixeBoundary { opcode: Opcode::NixeExit, imm: block as i64 };
        f.append_inst(Block(block), exit, Vec::new(), &[], Vec::new());
        f.nixe_exit_costs.insert(block as u64, 5);
    }
    let entry = InstructionData::NixeEntry { imm: 9 };
    f.append_inst(Block(3), entry, Vec::new(), &[], Vec::new());
    let jump = InstructionData::Other { opcode: Opcode::Jump, imm: 0 };
    f.append_inst(Block(3), jump, Vec::new(), &[], vec![call(1)]);
    f
}

#[test]
fn branches_on_literals_take_one_side() {
    // An entry still leads to the first exit, whichever way the branch goes.
    for (imm, kept) in [(1, vec![1]), (0x100, vec![1, 2]), (0, vec![1, 2]), (-1, vec![1])] {
        let mut f = branching(imm);
        let target = isa(Arch::X64);
        assert!(validate(&f, &target).is_ok());
        remove_dead_code(&mut f);
        assert!(validate(&f, &target).is_ok());
        let jump = &f.insts[1];
        assert_eq!(jump.data, InstructionData::Other { opcode: Opcode::Jump, imm: 0 });
        assert!(jump.args.is_empty());
        assert_eq!(jump.targets.len(), 1);
        assert_eq!(jump.targets[0].block, Block(if kept.len() == 1 { 1 } else { 2 }));
        assert_eq!(f.nixe_exit_costs.keys().copied().collect::<Vec<u64>>(), kept);
        assert_eq!(f.blocks[2].insts.is_empty(), kept.len() == 1);
        assert_eq!(f.blocks[3].insts.len(), 2);
    }
}
