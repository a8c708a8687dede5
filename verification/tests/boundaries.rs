//! Boundaries through validation, lowering, register allocation and emission.
//!
//! The driver around the library allocates with the real allocator. What is not
//! a boundary is encoded by a stand-in of the right size.

use std::collections::BTreeMap;

use nixe_boundary::boundary::{Boundary, BoundaryValue};
use nixe_boundary::bridge::{cycle, move_register};
use nixe_boundary::buffer::MachBuffer;
use nixe_boundary::dead_code::remove_dead_code;
use nixe_boundary::fragments::{
    constrained_fragment, destination, discarded_conversions, fast_fragment, fault_fragment,
    fragment, source, COUNT,
};
use nixe_boundary::frame::FrameLayout;
use nixe_boundary::ir::{Block, BlockCall, Function, Inst, InstructionData, Opcode, Value};
use nixe_boundary::isa::{Arch, TargetIsa, CODE_ALIGNMENT};
use nixe_boundary::lower::Lower;
use nixe_boundary::reg::{
    Allocation, AllocationConsumer, OperandCollector, OperandPos, PReg, Reg, RegClass,
};
use nixe_boundary::state_map::{EntryConstraint, ExitCompare, Location, StateMap};
use nixe_boundary::types::Type;
use nixe_boundary::validate::validate;

const TRANSFER_BYTES: u32 = 2048;
const FRAME_BYTES: u32 = 8192;

struct Target {
    isa: TargetIsa,
    algorithm: regalloc2::Algorithm,
}

fn target(triple: &str, allocator: &str, nixe: bool) -> Target {
    Target {
        isa: TargetIsa {
            arch: if triple.starts_with("x86") {
                Arch::X64
            } else {
                Arch::AArch64
            },
            nixe_abi: nixe,
            landings: false,
        },
        algorithm: if allocator == "single_pass" {
            regalloc2::Algorithm::Fastalloc
        } else {
            regalloc2::Algorithm::Ion
        },
    }
}

// ---- Building fragments ----

struct FuncCursor<'a> {
    func: &'a mut Function,
    block: Block,
    at: Option<usize>,
}

impl<'a> FuncCursor<'a> {
    fn at_bottom(func: &'a mut Function, block: Block) -> Self {
        FuncCursor { func, block, at: None }
    }

    /// Instructions go before the last one of the block.
    fn before_last(func: &'a mut Function, block: Block) -> Self {
        let at = func.blocks[block.0].insts.len() - 1;
        FuncCursor { func, block, at: Some(at) }
    }

    fn put(&mut self, data: InstructionData, args: &[Value], types: &[Type]) -> Inst {
        self.branch(data, args, types, Vec::new())
    }

    fn branch(
        &mut self,
        data: InstructionData,
        args: &[Value],
        types: &[Type],
        targets: Vec<BlockCall>,
    ) -> Inst {
        match self.at {
            None => self.func.append_inst(self.block, data, args.to_vec(), types, targets),
            Some(at) => {
                self.at = Some(at + 1);
                self.func.insert_inst(self.block, at, data, args.to_vec(), types, targets)
            }
        }
    }

    fn value(&mut self, data: InstructionData, args: &[Value], ty: Type) -> Value {
        let inst = self.put(data, args, &[ty]);
        self.func.insts[inst.0].results[0]
    }

    fn iconst(&mut self, ty: Type, imm: i64) -> Value {
        self.value(InstructionData::UnaryImm { opcode: Opcode::Iconst, imm }, &[], ty)
    }

    fn f32const(&mut self, bits: u32) -> Value {
        self.value(InstructionData::UnaryIeee32 { bits }, &[], Type::F32)
    }

    fn f64const(&mut self, pattern: u64) -> Value {
        self.value(InstructionData::UnaryIeee64 { pattern }, &[], Type::F64)
    }

    fn vconst(&mut self, ty: Type, constant: usize) -> Value {
        self.value(InstructionData::UnaryConst { constant }, &[], ty)
    }

    fn get_pinned_reg(&mut self, ty: Type) -> Value {
        self.value(InstructionData::Other { opcode: Opcode::GetPinnedReg, imm: 0 }, &[], ty)
    }

    fn iadd_imm_s(&mut self, value: Value, imm: i64) -> Value {
        let ty = self.func.value_types[value.0];
        self.value(InstructionData::Other { opcode: Opcode::IaddImm, imm }, &[value], ty)
    }

    fn load(&mut self, ty: Type, notrap: bool, address: Value, offset: i32) -> Value {
        let data = InstructionData::Memory { opcode: Opcode::Load, offset, notrap };
        self.value(data, &[address], ty)
    }

    fn store(&mut self, notrap: bool, value: Value, address: Value, offset: i32) {
        let data = InstructionData::Memory { opcode: Opcode::Store, offset, notrap };
        self.put(data, &[value, address], &[]);
    }

    fn trapnz(&mut self, value: Value) {
        self.put(InstructionData::Other { opcode: Opcode::Trapnz, imm: 0 }, &[value], &[]);
    }

    fn jump(&mut self, block: Block, args: &[Value]) {
        let data = InstructionData::Other { opcode: Opcode::Jump, imm: 0 };
        self.branch(data, &[], &[], vec![BlockCall { block, args: args.to_vec() }]);
    }

    fn brif(&mut self, condition: Value, then: (Block, &[Value]), other: (Block, &[Value])) {
        let data = InstructionData::Other { opcode: Opcode::Brif, imm: 0 };
        let targets = [then, other]
            .into_iter()
            .map(|(block, args)| BlockCall { block, args: args.to_vec() })
            .collect();
        self.branch(data, &[condition], &[], targets);
    }

    fn return_(&mut self) {
        self.put(InstructionData::Other { opcode: Opcode::Return, imm: 0 }, &[], &[]);
    }

    fn nixe_charge(&mut self, imm: i64) {
        self.put(InstructionData::UnaryImm { opcode: Opcode::NixeCharge, imm }, &[], &[]);
    }

    fn nixe_entry(&mut self, signature: &[Type], imm: i64) -> Inst {
        self.put(InstructionData::NixeEntry { imm }, &[], signature)
    }

    fn boundary(&mut self, opcode: Opcode, imm: i64, args: &[Value]) {
        self.put(InstructionData::NixeBoundary { opcode, imm }, args, &[]);
    }

    fn nixe_state(&mut self, id: i64, args: &[Value]) {
        self.boundary(Opcode::NixeState, id, args);
    }

    fn nixe_check(&mut self, id: i64, args: &[Value]) {
        self.boundary(Opcode::NixeCheck, id, args);
    }

    fn nixe_exit(&mut self, id: i64, args: &[Value]) {
        self.boundary(Opcode::NixeExit, id, args);
    }

    fn nixe_fault_start(&mut self, id: i64, args: &[Value]) {
        self.boundary(Opcode::NixeFaultStart, id, args);
    }

    fn nixe_fault_end(&mut self, id: i64, args: &[Value]) {
        self.boundary(Opcode::NixeFaultEnd, id, args);
    }
}

fn last_inst(f: &Function, block: usize) -> Inst {
    *f.blocks[block].insts.last().unwrap()
}

// ---- Lowering and allocation ----

enum Work {
    Boundary(Box<Boundary>),
    Memory { opcode: Opcode, ty: Type, offset: i32, span: Option<Box<Boundary>> },
    Host,
    Conversion,
    Branch,
    Return,
}

struct MachInst {
    work: Work,
    args: Vec<Value>,
    results: Vec<Value>,
    targets: Vec<(usize, Vec<Value>)>,
    ret: bool,
    operands: Vec<regalloc2::Operand>,
    /// How many operands precede those of the boundary.
    own: usize,
    branch_args: Vec<Vec<regalloc2::VReg>>,
}

impl MachInst {
    fn new(work: Work) -> Self {
        MachInst {
            work,
            args: Vec::new(),
            results: Vec::new(),
            targets: Vec::new(),
            ret: false,
            operands: Vec::new(),
            own: 0,
            branch_args: Vec::new(),
        }
    }
}

struct MachBlock {
    insts: Vec<MachInst>,
    params: Vec<Value>,
    cold: bool,
    /// The block of the fragment, unless it was made for an edge.
    label: Option<Block>,
}

struct MachFunction {
    insts: Vec<MachInst>,
    ranges: Vec<(usize, usize)>,
    params: Vec<Vec<regalloc2::VReg>>,
    succs: Vec<Vec<regalloc2::Block>>,
    preds: Vec<Vec<regalloc2::Block>>,
    vregs: usize,
}

impl regalloc2::Function for MachFunction {
    fn num_insts(&self) -> usize {
        self.insts.len()
    }
    fn num_blocks(&self) -> usize {
        self.ranges.len()
    }
    fn entry_block(&self) -> regalloc2::Block {
        regalloc2::Block::new(0)
    }
    fn block_insns(&self, block: regalloc2::Block) -> regalloc2::InstRange {
        let (from, to) = self.ranges[block.index()];
        regalloc2::InstRange::new(regalloc2::Inst::new(from), regalloc2::Inst::new(to))
    }
    fn block_succs(&self, block: regalloc2::Block) -> &[regalloc2::Block] {
        &self.succs[block.index()]
    }
    fn block_preds(&self, block: regalloc2::Block) -> &[regalloc2::Block] {
        &self.preds[block.index()]
    }
    fn block_params(&self, block: regalloc2::Block) -> &[regalloc2::VReg] {
        &self.params[block.index()]
    }
    fn is_ret(&self, inst: regalloc2::Inst) -> bool {
        self.insts[inst.index()].ret
    }
    fn is_branch(&self, inst: regalloc2::Inst) -> bool {
        matches!(self.insts[inst.index()].work, Work::Branch)
    }
    fn branch_blockparams(
        &self,
        _: regalloc2::Block,
        inst: regalloc2::Inst,
        succ: usize,
    ) -> &[regalloc2::VReg] {
        &self.insts[inst.index()].branch_args[succ]
    }
    fn inst_operands(&self, inst: regalloc2::Inst) -> &[regalloc2::Operand] {
        &self.insts[inst.index()].operands
    }
    fn inst_clobbers(&self, _: regalloc2::Inst) -> regalloc2::PRegSet {
        regalloc2::PRegSet::empty()
    }
    fn num_vregs(&self) -> usize {
        self.vregs
    }
    fn spillslot_size(&self, class: regalloc2::RegClass) -> usize {
        if class == regalloc2::RegClass::Int {
            1
        } else {
            2
        }
    }
}

fn outside_class(class: RegClass) -> regalloc2::RegClass {
    match class {
        RegClass::Int => regalloc2::RegClass::Int,
        RegClass::Float => regalloc2::RegClass::Float,
        RegClass::Vector => regalloc2::RegClass::Vector,
    }
}

fn machine_env(arch: Arch) -> regalloc2::MachineEnv {
    let mut env = regalloc2::MachineEnv {
        preferred_regs_by_class: [regalloc2::PRegSet::empty(); 3],
        non_preferred_regs_by_class: [regalloc2::PRegSet::empty(); 3],
        scratch_by_class: [None; 3],
        fixed_stack_slots: Vec::new(),
    };
    let scratch = if arch == Arch::X64 { 11 } else { 16 };
    env.scratch_by_class[0] = Some(regalloc2::PReg::new(scratch, regalloc2::RegClass::Int));
    for index in 0u8..32 {
        if arch.allows_register(Type::I64, index, false) {
            env.preferred_regs_by_class[0]
                .add(regalloc2::PReg::new(usize::from(index), regalloc2::RegClass::Int));
        }
        if arch.allows_register(Type::I8X16, index, true) {
            env.preferred_regs_by_class[1]
                .add(regalloc2::PReg::new(usize::from(index), regalloc2::RegClass::Float));
        }
    }
    env
}

/// Lowers the blocks from the last to the first. Returns the machine blocks, the
/// registers that entries gave to their results, and the number of registers.
fn lower_blocks(f: &Function) -> (Vec<MachBlock>, BTreeMap<usize, usize>, usize) {
    let mut ctx = Lower::new(f);
    let mut aliases = BTreeMap::new();
    let mut blocks = Vec::new();
    for (number, block) in f.blocks.iter().enumerate().rev() {
        let mut insts: Vec<MachInst> = Vec::new();
        let mut members: Vec<usize> = Vec::new();
        let mut inside = false;
        for &inst in block.insts.iter().rev() {
            let node = &f.insts[inst.0];
            if let Some((boundary, outputs)) = Boundary::lower(&mut ctx, inst) {
                for (result, reg) in node.results.iter().zip(outputs) {
                    let Reg::Virtual { index, .. } = reg else {
                        panic!("entry results are in virtual registers")
                    };
                    aliases.insert(result.0, index);
                }
                match node.data.opcode() {
                    Opcode::NixeFaultEnd => inside = true,
                    Opcode::NixeFaultStart => {
                        for member in members.drain(..) {
                            let mut own = boundary.clone();
                            if let Work::Memory { opcode, span, .. } = &mut insts[member].work {
                                if *opcode == Opcode::AtomicXor {
                                    own.fault_pos = OperandPos::Late;
                                }
                                *span = Some(own);
                            }
                        }
                        inside = false;
                    }
                    opcode => {
                        let mut inst = MachInst::new(Work::Boundary(boundary));
                        inst.ret = opcode == Opcode::NixeExit;
                        insts.push(inst);
                    }
                }
                continue;
            }
            let used = node.results.iter().any(|value| ctx.lowered_uses[value.0]);
            let (work, kept) = match node.data {
                InstructionData::Memory { opcode, offset, notrap } => {
                    let moved = node.results.first().or(node.args.first()).unwrap();
                    let ty = f.value_types[moved.0];
                    (
                        Work::Memory { opcode, ty, offset, span: None },
                        inside || !notrap || opcode != Opcode::Load,
                    )
                }
                InstructionData::Other { opcode: Opcode::Jump | Opcode::Brif, .. } => {
                    (Work::Branch, true)
                }
                InstructionData::Other { opcode: Opcode::Return, .. } => (Work::Return, true),
                InstructionData::Other { opcode: Opcode::Trapnz, .. } => (Work::Host, true),
                InstructionData::Other { opcode: Opcode::FcvtFromSint, .. } => {
                    (Work::Conversion, f.has_observable_fp_effect(inst))
                }
                _ => (Work::Host, false),
            };
            if !kept && !used {
                continue;
            }
            for index in 0..node.args.len() {
                ctx.put_input_in_regs(inst, index);
            }
            let mut lowered = MachInst::new(work);
            lowered.args = node.args.clone();
            lowered.results = node.results.clone();
            lowered.ret = node.data.opcode() == Opcode::Return;
            for call in &node.targets {
                for value in &call.args {
                    ctx.lowered_uses[value.0] = true;
                }
                lowered.targets.push((call.block.0, call.args.clone()));
            }
            if inside && matches!(lowered.work, Work::Memory { .. }) {
                members.push(insts.len());
            }
            insts.push(lowered);
        }
        insts.reverse();
        if insts.is_empty() {
            // A block that control cannot come to still has to end.
            let mut end = MachInst::new(Work::Host);
            end.ret = true;
            insts.push(end);
        }
        blocks.push(MachBlock {
            insts,
            params: block.params.clone(),
            cold: block.cold,
            label: Some(Block(number)),
        });
    }
    blocks.reverse();
    (blocks, aliases, ctx.next_vreg)
}

/// Gives each edge of a branch with several destinations a block of its own, and
/// puts a block in front that leads to all entries.
fn shape_control_flow(blocks: &mut Vec<MachBlock>, entries: &[Block]) {
    let mut edges: Vec<MachBlock> = Vec::new();
    let count = blocks.len();
    for block in blocks.iter_mut() {
        if let Some(last) = block.insts.last_mut() {
            if last.targets.len() > 1 {
                for (number, args) in &mut last.targets {
                    let mut jump = MachInst::new(Work::Branch);
                    jump.targets.push((*number, std::mem::take(args)));
                    *number = count + edges.len();
                    edges.push(MachBlock {
                        insts: vec![jump],
                        params: Vec::new(),
                        cold: false,
                        label: None,
                    });
                }
            }
        }
    }
    blocks.extend(edges);
    if entries.len() > 1 {
        for block in blocks.iter_mut() {
            for inst in &mut block.insts {
                for (number, _) in &mut inst.targets {
                    *number += 1;
                }
            }
        }
        let mut dispatch = MachInst::new(Work::Branch);
        dispatch.targets = entries.iter().map(|entry| (entry.0 + 1, Vec::new())).collect();
        blocks.insert(
            0,
            MachBlock { insts: vec![dispatch], params: Vec::new(), cold: false, label: None },
        );
    }
}

fn flatten(
    f: &Function,
    blocks: Vec<MachBlock>,
    aliases: &BTreeMap<usize, usize>,
    vregs: usize,
) -> (MachFunction, Vec<(Option<Block>, bool)>) {
    let resolve = |index: usize| aliases.get(&index).copied().unwrap_or(index);
    let vreg = |value: &Value| {
        let class = outside_class(f.value_types[value.0].reg_class());
        regalloc2::VReg::new(resolve(value.0), class)
    };
    let count = blocks.len();
    let mut out = MachFunction {
        insts: Vec::new(),
        ranges: Vec::new(),
        params: Vec::new(),
        succs: vec![Vec::new(); count],
        preds: vec![Vec::new(); count],
        vregs,
    };
    let mut labels = Vec::new();
    for (number, block) in blocks.into_iter().enumerate() {
        labels.push((block.label, block.cold));
        out.params.push(block.params.iter().map(vreg).collect());
        let start = out.insts.len();
        for mut inst in block.insts {
            for value in &inst.args {
                inst.operands.push(regalloc2::Operand::new(
                    vreg(value),
                    regalloc2::OperandConstraint::Reg,
                    regalloc2::OperandKind::Use,
                    regalloc2::OperandPos::Early,
                ));
            }
            for value in &inst.results {
                inst.operands.push(regalloc2::Operand::new(
                    vreg(value),
                    regalloc2::OperandConstraint::Reg,
                    regalloc2::OperandKind::Def,
                    regalloc2::OperandPos::Late,
                ));
            }
            inst.own = inst.operands.len();
            let mut collector = OperandCollector::new();
            let (boundary, fault) = match &mut inst.work {
                Work::Boundary(boundary) => (Some(boundary), false),
                Work::Memory { span, .. } => (span.as_mut(), true),
                _ => (None, false),
            };
            if let Some(boundary) = boundary {
                for (value, _) in &mut boundary.values {
                    if let BoundaryValue::Register(Reg::Virtual { index, .. }) = value {
                        *index = resolve(*index);
                    }
                }
                if fault {
                    boundary.fault_operands(&mut collector);
                } else {
                    boundary.operands(&mut collector);
                }
            }
            inst.operands
                .extend(collector.operands.into_iter().map(regalloc2::Operand::from_bits));
            for (succ, args) in &inst.targets {
                inst.branch_args.push(args.iter().map(vreg).collect());
                out.succs[number].push(regalloc2::Block::new(*succ));
                out.preds[*succ].push(regalloc2::Block::new(number));
            }
            out.insts.push(inst);
        }
        out.ranges.push((start, out.insts.len()));
    }
    (out, labels)
}

// ---- Emission ----

struct FrameSize {
    nixe_frame_size: Option<u32>,
}

struct CodeBuffer {
    nixe_states: Vec<StateMap>,
    nixe_faults: Vec<StateMap>,
    nixe_entries: Vec<(Block, u32)>,
    traps: Vec<u32>,
    alignment: u32,
    frame_size: u32,
}

impl CodeBuffer {
    fn frame_layout(&self) -> Option<FrameSize> {
        Some(FrameSize { nixe_frame_size: Some(self.frame_size) })
    }
}

struct Code {
    buffer: CodeBuffer,
    bytes: Vec<u8>,
    /// What was emitted, one line per instruction, with its registers.
    listing: Vec<String>,
    /// Offsets of the conversions to floating-point numbers.
    conversions: Vec<u64>,
}

impl Code {
    fn code_buffer(&self) -> &[u8] {
        &self.bytes
    }
}

fn register_name(x64: bool, vector: bool, number: usize) -> String {
    const NAMES: [&str; 8] = ["rax", "rcx", "rdx", "rbx", "rsp", "rbp", "rsi", "rdi"];
    match (x64, vector) {
        (true, true) => format!("%xmm{number}"),
        (true, false) if number < 8 => format!("%{}", NAMES[number]),
        (true, false) => format!("%r{number}"),
        (false, true) => format!("v{number}"),
        (false, false) if number == 31 => "sp".into(),
        (false, false) => format!("x{number}"),
    }
}

fn line(mnemonic: &str, x64: bool, operands: &[Allocation]) -> String {
    let operands: Vec<String> = operands
        .iter()
        .map(|operand| match operand {
            Allocation::Reg(preg) => {
                let vector = preg.class() != RegClass::Int;
                register_name(x64, vector, usize::from(preg.hw_enc()))
            }
            Allocation::Stack(slot) => format!("[frame {slot}]"),
        })
        .collect();
    format!("{mnemonic} {}", operands.join(", "))
}

fn allocation(alloc: &regalloc2::Allocation) -> Allocation {
    match (alloc.as_reg(), alloc.as_stack()) {
        (Some(preg), _) => Allocation::Reg(PReg { index: preg.index() }),
        (_, Some(slot)) => Allocation::Stack(slot.index() as u32),
        _ => panic!("operand was not allocated"),
    }
}

/// The accesses of a memory operation: what precedes each, and its own bytes.
fn access_sequence(arch: Arch, opcode: Opcode, ty: Type, offset: i32) -> Vec<(Vec<u8>, Vec<u8>)> {
    let word = |word: u32| word.to_le_bytes().to_vec();
    let store = opcode == Opcode::Store;
    match (arch, opcode) {
        (Arch::X64, Opcode::AtomicXor) => vec![
            (vec![], vec![0x48, 0x8b, 0x00]),
            (vec![0x48, 0x31, 0xc1], vec![0xf0, 0x48, 0x0f, 0xb1, 0x08]),
        ],
        (Arch::AArch64, Opcode::AtomicXor) => vec![
            (vec![], word(0xc85ffc00)),
            (word(0xca010000), word(0xc800fc00)),
        ],
        (Arch::X64, _) => {
            let mut bytes = match ty {
                Type::I8 => vec![if store { 0x88 } else { 0x8a }],
                Type::I16 => vec![0x66, if store { 0x89 } else { 0x8b }],
                Type::I32 => vec![if store { 0x89 } else { 0x8b }],
                Type::I64 => vec![0x48, if store { 0x89 } else { 0x8b }],
                _ => vec![0xf3, 0x0f, if store { 0x7f } else { 0x6f }],
            };
            if offset == 0 {
                bytes.push(0x00);
            } else if offset < 128 {
                bytes.extend([0x40, offset as u8]);
            } else {
                bytes.push(0x80);
                bytes.extend(offset.to_le_bytes());
            }
            vec![(vec![], bytes)]
        }
        (Arch::AArch64, _) => {
            let far = offset as u32 >= 4096 * ty.bytes();
            let before = if far { word(0x91400800) } else { vec![] };
            vec![(before, word(if store { 0xf9000000 } else { 0xf9400000 }))]
        }
    }
}

/// The length of the instruction at the start of `code`.
fn decoded_len(code: &[u8], arch: Arch) -> usize {
    if arch == Arch::AArch64 {
        return 4;
    }
    let mut at = 0;
    while matches!(code[at], 0x66 | 0xf0 | 0xf3 | 0x40..=0x4f) {
        at += 1;
    }
    match code[at] {
        0x90 => return at + 1,
        0xe9 => return at + 5,
        0x0f if code[at + 1] == 0x0b => return at + 2,
        0x0f => at += 2,
        _ => at += 1,
    }
    at + 1
        + match code[at] >> 6 {
            1 => 1,
            2 => 4,
            _ => 0,
        }
}

fn compile(f: Function, target: &Target) -> Result<Code, String> {
    compile_entries(f, &[Block(0)], target)
}

fn compile_entries(mut f: Function, entries: &[Block], target: &Target) -> Result<Code, String> {
    let arch = target.isa.arch;
    let x64 = arch == Arch::X64;
    validate(&f, &target.isa).map_err(|error| error.message())?;
    remove_dead_code(&mut f);
    let (mut blocks, aliases, vregs) = lower_blocks(&f);
    shape_control_flow(&mut blocks, entries);
    let (mut function, labels) = flatten(&f, blocks, &aliases, vregs);
    let options = regalloc2::RegallocOptions {
        verbose_log: false,
        validate_ssa: false,
        algorithm: target.algorithm,
    };
    let output = regalloc2::run(&function, &machine_env(arch), &options)
        .map_err(|error| format!("{error:?}"))?;
    let stackslots_size: u32 = f.stack_slots.iter().sum();
    let frame = FrameLayout {
        transfer_bytes: TRANSFER_BYTES,
        stackslots_size,
        frame_bytes: FRAME_BYTES,
    };

    let mut sink = MachBuffer::new();
    let mut nixe_entries = Vec::new();
    let mut traps = Vec::new();
    let mut listing = Vec::new();
    let mut conversions = Vec::new();
    let mut order: Vec<usize> = (0..labels.len()).collect();
    order.sort_by_key(|&number| labels[number].1);
    for number in order {
        if let Some(block) = labels[number].0 {
            nixe_entries.push((block, sink.cur_offset()));
        }
        let (start, end) = function.ranges[number];
        for index in start..end {
            for (point, edit) in &output.edits {
                if *point != regalloc2::ProgPoint::before(regalloc2::Inst::new(index)) {
                    continue;
                }
                listing.push(emit_edit(&mut sink.code, x64, edit));
            }
            let range = output.inst_alloc_offsets[index] as usize
                ..output
                    .inst_alloc_offsets
                    .get(index + 1)
                    .map_or(output.allocs.len(), |&next| next as usize);
            let allocs: Vec<Allocation> = output.allocs[range].iter().map(allocation).collect();
            let dispatch = labels[number].0.is_none() && number == 0;
            let inst = &mut function.insts[index];
            let mut consumer = AllocationConsumer::new(allocs[inst.own..].to_vec());
            match &mut inst.work {
                Work::Boundary(boundary) => {
                    boundary.operands(&mut consumer);
                    boundary.emit(&mut sink, &frame, &target.isa);
                    listing.push(line("boundary", x64, &allocs));
                }
                Work::Memory { opcode, ty, offset, span: Some(boundary) } => {
                    boundary.fault_operands(&mut consumer);
                    for (before, own) in access_sequence(arch, *opcode, *ty, *offset) {
                        sink.code.extend(before);
                        traps.push(sink.cur_offset());
                        boundary.emit_faulting(&mut sink, &frame, &own);
                        listing.push(line("access", x64, &allocs));
                    }
                }
                Work::Memory { opcode, ty, offset, span: None } => {
                    for (before, own) in access_sequence(arch, *opcode, *ty, *offset) {
                        sink.code.extend(before);
                        sink.code.extend(own);
                        listing.push(line("access", x64, &allocs));
                    }
                }
                Work::Host => {
                    let bytes = if x64 { [0x0f, 0x1f, 0x40, 0x00] } else { [0x1f, 0x20, 0x03, 0xd5] };
                    sink.code.extend(bytes);
                    listing.push(line("host", x64, &allocs));
                }
                Work::Conversion => {
                    conversions.push(u64::from(sink.cur_offset()));
                    if x64 {
                        sink.code.extend([0xf3, 0x48, 0x0f, 0x2a, 0xc0]);
                        listing.push(line("cvtsi2ss", x64, &allocs));
                    } else {
                        sink.code.extend(0x9e220000u32.to_le_bytes());
                        listing.push(line("scvtf", x64, &allocs));
                    }
                }
                Work::Return => {
                    let bytes: &[u8] = if x64 { &[0xc3] } else { &[0xc0, 0x03, 0x5f, 0xd6] };
                    sink.code.extend(bytes);
                    listing.push(line("ret", x64, &allocs));
                }
                Work::Branch => {
                    // The block in front of several entries holds no code.
                    if !dispatch {
                        let branch: &[u8] =
                            if x64 { &[0xe9, 0, 0, 0, 0] } else { &[0, 0, 0, 0x14] };
                        sink.code.extend(branch);
                        listing.push(line("jump", x64, &allocs));
                    }
                }
            }
            for (point, edit) in &output.edits {
                if *point == regalloc2::ProgPoint::after(regalloc2::Inst::new(index)) {
                    listing.push(emit_edit(&mut sink.code, x64, edit));
                }
            }
        }
    }
    Ok(Code {
        buffer: CodeBuffer {
            nixe_states: sink.nixe_states,
            nixe_faults: sink.nixe_faults,
            nixe_entries,
            traps,
            alignment: CODE_ALIGNMENT,
            frame_size: TRANSFER_BYTES + stackslots_size + 8 * output.num_spillslots as u32,
        },
        bytes: sink.code,
        listing,
        conversions,
    })
}

fn emit_edit(code: &mut Vec<u8>, x64: bool, edit: &regalloc2::Edit) -> String {
    let regalloc2::Edit::Move { from, to } = edit;
    match (from.as_reg(), to.as_reg()) {
        (Some(src), Some(dst)) => {
            let vector = src.class() != regalloc2::RegClass::Int;
            move_register(code, x64, vector, dst.hw_enc() as u8, src.hw_enc() as u8);
        }
        _ if x64 => code.extend([0x4d, 0x89, 0x87, 0, 0, 0, 0]),
        _ => code.extend(0xf90002a0u32.to_le_bytes()),
    }
    line("mov", x64, &[allocation(to), allocation(from)])
}

// ---- Exits ----

#[test]
fn exit_comparisons_own_flags_on_both_poll_paths_under_pressure() {
    for triple in ["x86_64-unknown-linux-gnu", "aarch64-unknown-linux-gnu"] {
        for allocator in ["single_pass", "backtracking"] {
            let isa = target(triple, allocator, true);
            for ty in [Type::I32, Type::I64] {
                for cost in [None, Some(0), Some(2048)] {
                    let mut f = Function::new();
                    let block = f.make_block();
                    let signature: Vec<Type> = (0..COUNT).map(|_| ty).collect();
                    let mut c = FuncCursor::at_bottom(&mut f, block);
                    let entry = c.nixe_entry(&signature, 1);
                    let values = c.func.insts[entry.0].results.to_vec();
                    c.nixe_exit(2, &values);
                    f.nixe_exit_compares.insert(2, ExitCompare { lhs: 0, rhs: COUNT - 1 });
                    if let Some(cost) = cost {
                        f.nixe_exit_costs.insert(2, cost);
                    }
                    let code = compile(f, &isa).unwrap();
                    let maps = &code.buffer.nixe_states;
                    assert!(!maps[0].subtract_flags);
                    let map = &maps[1];
                    assert!(map.subtract_flags);
                    let reg = |index: usize| match map.values[index].location {
                        Location::Register { index, vector: false } => index,
                        other => panic!("compare operand was not constrained: {other:?}"),
                    };
                    let (lhs, rhs) = (reg(0), reg(COUNT - 1));
                    assert!(map
                        .values
                        .iter()
                        .any(|v| matches!(v.location, Location::Spill { .. })));
                    let cmp = if triple.starts_with("x86") {
                        vec![
                            0x40 | if ty == Type::I64 { 8 } else { 0 }
                                | ((rhs >> 3) << 2)
                                | (lhs >> 3),
                            0x39,
                            0xc0 | ((rhs & 7) << 3) | (lhs & 7),
                        ]
                    } else {
                        let word = if ty == Type::I64 { 0xeb00001fu32 } else { 0x6b00001f }
                            | (u32::from(rhs) << 16)
                            | (u32::from(lhs) << 5);
                        word.to_le_bytes().to_vec()
                    };
                    let bytes = code.code_buffer();
                    let end = map.offset as usize;
                    assert_eq!(&bytes[end - cmp.len()..end], &cmp);
                    if let Some(poll) = map.poll {
                        assert_eq!(poll.offset, map.offset + 2 * u32::from(map.patch_bytes));
                        let cold_cmp = end + usize::from(map.patch_bytes);
                        assert_eq!(&bytes[cold_cmp..cold_cmp + cmp.len()], &cmp);
                        assert_eq!(Some(poll.completed), cost);
                    } else {
                        assert_eq!(cost, None);
                    }
                }
            }
        }
    }
}

#[test]
fn exit_comparisons_reject_invalid_operands_and_clear_with_function() {
    let isa = target("x86_64-unknown-linux-gnu", "backtracking", true);
    for (a, b, lhs, rhs, id) in [
        (Type::I32, Type::I64, 0, 1, 2),
        (Type::I8, Type::I8, 0, 1, 2),
        (Type::I64, Type::I64, 0, 2, 2),
        (Type::I64, Type::I64, 0, 1, 99),
    ] {
        let mut f = Function::new();
        let block = f.make_block();
        let mut c = FuncCursor::at_bottom(&mut f, block);
        let a = c.iconst(a, 1);
        let b = c.iconst(b, 2);
        c.nixe_exit(2, &[a, b]);
        f.nixe_exit_compares.insert(id, ExitCompare { lhs, rhs });
        assert!(compile(f.clone(), &isa).err().unwrap().contains("Nixe exit comparison"));
        f.clear();
        assert!(f.nixe_exit_compares.is_empty());
    }
}

#[test]
fn literal_boundaries_preserve_exact_bits_without_allocating_registers() {
    for triple in ["x86_64-unknown-linux-gnu", "aarch64-unknown-linux-gnu"] {
        for allocator in ["single_pass", "backtracking"] {
            let isa = target(triple, allocator, true);
            let mut f = Function::new();
            let block = f.make_block();
            let vector = 0xff80_0000_7654_3210_fedc_ba98_0123_4567u128;
            f.constants.push(vector.to_le_bytes().to_vec());
            let handle = f.constants.len() - 1;
            let mut c = FuncCursor::at_bottom(&mut f, block);
            let pointer = c.get_pinned_reg(Type::I64);
            let args = [
                c.iconst(Type::I8, -1),
                c.iconst(Type::I16, 0x8123),
                c.iconst(Type::I32, 0xfedc_ba98),
                c.iconst(Type::I64, -2),
                c.f32const(0x7f80_0123),
                c.f64const(0x8000_0000_0000_0000),
                c.vconst(Type::I8X16, handle),
            ];
            c.nixe_state(1, &args);
            c.nixe_fault_start(2, &args);
            let loaded = c.load(Type::I64, false, pointer, 0);
            c.nixe_fault_end(2, &[]);
            let mut exit = args.to_vec();
            exit.push(loaded);
            c.nixe_exit(3, &exit);
            let code = compile(f, &isa).unwrap();
            let expected = [
                [0xff, 0],
                [0x8123, 0],
                [0xfedc_ba98, 0],
                [u64::MAX - 1, 0],
                [0x7f80_0123, 0],
                [0x8000_0000_0000_0000, 0],
                [vector as u64, (vector >> 64) as u64],
            ];
            for map in code.buffer.nixe_states.iter().chain(&code.buffer.nixe_faults) {
                for (actual, expected) in map.values.iter().zip(expected) {
                    assert_eq!(
                        actual.location,
                        Location::Constant(expected),
                        "{triple} {allocator}"
                    );
                }
            }
            assert_eq!(code.buffer.nixe_states.len(), 2);
            assert_eq!(code.buffer.nixe_faults.len(), 1);
            assert!(code.buffer.nixe_faults[0].fault_bytes > 0);
            assert!(matches!(
                code.buffer.nixe_states[1].values.last().unwrap().location,
                Location::Register { .. } | Location::Spill { .. }
            ));

            // Boundary-only literals add metadata but no machine instructions
            // and no spill area.
            let sizes: Vec<_> = [0, 80]
                .into_iter()
                .map(|count| {
                    let mut f = Function::new();
                    let block = f.make_block();
                    let mut c = FuncCursor::at_bottom(&mut f, block);
                    let values: Vec<_> = (0..count)
                        .map(|i| c.iconst(Type::I64, 0x1234_5678_0000_0000 + i))
                        .collect();
                    c.nixe_exit(1, &values);
                    let code = compile(f, &isa).unwrap();
                    (
                        code.code_buffer().len(),
                        code.buffer.frame_layout().unwrap().nixe_frame_size,
                    )
                })
                .collect();
            assert_eq!(sizes[0], sizes[1], "{triple} {allocator}");
        }
    }
}

#[test]
fn constant_branch_removes_dead_checkpoint_costs_without_hiding_invalid_input() {
    for triple in ["x86_64-unknown-linux-gnu", "aarch64-unknown-linux-gnu"] {
        let isa = target(triple, "backtracking", true);
        let mut f = Function::new();
        let entry = f.make_block();
        let live = f.make_block();
        let dead = f.make_block();
        let mut cursor = FuncCursor::at_bottom(&mut f, entry);
        let condition = cursor.iconst(Type::I8, 1);
        let first = cursor.iconst(Type::I64, 4);
        let second = cursor.iconst(Type::I64, 6);
        cursor.brif(condition, (live, &[]), (dead, &[]));
        FuncCursor::at_bottom(&mut f, live).nixe_exit(1, &[first, second]);
        FuncCursor::at_bottom(&mut f, dead).nixe_exit(2, &[first, second]);
        f.nixe_exit_costs.insert(1, 7);
        f.nixe_exit_costs.insert(2, 13);
        for id in [1, 2] {
            f.nixe_exit_compares.insert(id, ExitCompare { lhs: 0, rhs: 1 });
        }
        let mut left = f.clone();
        remove_dead_code(&mut left);
        let code = compile(f.clone(), &isa).unwrap();
        assert_eq!(left.nixe_exit_costs.len(), 1);
        assert_eq!(left.nixe_exit_costs.get(&1), Some(&7));
        assert_eq!(left.nixe_exit_compares.len(), 1);
        assert!(left.nixe_exit_compares.contains_key(&1));
        let maps = &code.buffer.nixe_states;
        assert_eq!(maps.len(), 1);
        assert_eq!(maps[0].id, 1);
        assert_eq!(maps[0].poll.unwrap().completed, 7);
        assert!(maps[0].subtract_flags);

        let mut invalid = f.clone();
        invalid.nixe_exit_compares.insert(2, ExitCompare { lhs: 0, rhs: 2 });
        assert!(compile(invalid, &isa).err().unwrap().contains("Nixe exit comparison"));

        // Invalid costs must fail even if the corresponding exit would die.
        f.nixe_exit_costs.insert(2, 2049);
        assert!(compile(f, &isa).err().unwrap().contains("Nixe checkpoint"));
    }
}

#[test]
fn internal_checks_export_cold_patch_and_keep_the_ssa_continuation() {
    for triple in ["x86_64-unknown-linux-gnu", "aarch64-unknown-linux-gnu"] {
        for allocator in ["single_pass", "backtracking"] {
            let isa = target(triple, allocator, true);
            let mut f = fast_fragment();
            let exit = last_inst(&f, 0);
            let args = f.insts[exit.0].args.to_vec();
            FuncCursor::before_last(&mut f, Block(0)).nixe_check(77, &args);
            let code = compile(f, &isa).unwrap();
            let map = code.buffer.nixe_states.iter().find(|map| map.id == 77).unwrap();
            let terminal = code.buffer.nixe_states.iter().find(|map| map.id == 2).unwrap();
            assert!(!map.entry && map.poll.is_none());
            assert_eq!(map.values.len(), args.len());
            assert!(map.values.iter().all(|v| v.location != Location::Unused));
            assert!(map.offset + u32::from(map.patch_bytes) <= terminal.offset);
            let expected = if triple.starts_with("x86") {
                vec![0x4d, 0x85, 0xf6, 0x7f, 8]
            } else {
                [0xf100029f_u32, 0x5400004c].into_iter().flat_map(u32::to_le_bytes).collect()
            };
            assert_eq!(
                &code.code_buffer()[map.offset as usize - expected.len()..map.offset as usize],
                expected
            );
            let mut bytes = code.code_buffer().to_vec();
            map.patch_exit(&mut bytes, 0, u64::from(map.offset + u32::from(map.patch_bytes)))
                .unwrap();
        }
    }
}

#[test]
fn block_charges_preserve_flags_and_do_not_export_boundaries() {
    for triple in ["x86_64-unknown-linux-gnu", "aarch64-unknown-linux-gnu"] {
        for allocator in ["single_pass", "backtracking"] {
            let isa = target(triple, allocator, true);
            for cost in [1_i64, 2048] {
                let mut f = fast_fragment();
                let mut c = FuncCursor::before_last(&mut f, Block(0));
                c.nixe_charge(cost);
                c.nixe_charge(cost); // costs are not unique boundary IDs
                let code = compile(f, &isa).unwrap();
                let bytes = if triple.starts_with("x86") {
                    [0x4d, 0x8d, 0xb6]
                        .into_iter()
                        .chain((-(cost as i32)).to_le_bytes())
                        .collect::<Vec<_>>()
                } else {
                    (0xd1000294 | ((cost as u32) << 10)).to_le_bytes().to_vec()
                };
                assert_eq!(
                    code.code_buffer().windows(bytes.len()).filter(|w| *w == bytes).count(),
                    2
                );
                assert!(code.buffer.nixe_states.iter().all(|map| map.id == 1 || map.id == 2));
            }
            for cost in [-1_i64, 0, 2049, 65537] {
                let mut f = fast_fragment();
                FuncCursor::before_last(&mut f, Block(0)).nixe_charge(cost);
                assert!(compile(f, &isa).err().unwrap().contains("Nixe charge"));
            }
            let mut f = fast_fragment();
            let mut c = FuncCursor::before_last(&mut f, Block(0));
            c.nixe_fault_start(3, &[]);
            c.nixe_charge(1);
            c.nixe_fault_end(3, &[]);
            assert!(compile(f, &isa).err().unwrap().contains("Nixe charge"));

            // Isolate the charge: no other Nixe opcode can cause rejection.
            let mut f = Function::new();
            let block = f.make_block();
            let mut c = FuncCursor::at_bottom(&mut f, block);
            c.nixe_charge(1);
            c.return_();
            assert!(compile(f, &target(triple, allocator, false))
                .err()
                .unwrap()
                .contains("Nixe charge"));
        }
    }
}

#[test]
fn checked_terminals_keep_allocated_operands_and_export_both_patches() {
    for triple in ["x86_64-unknown-linux-gnu", "aarch64-unknown-linux-gnu"] {
        for allocator in ["single_pass", "backtracking"] {
            let isa = target(triple, allocator, true);
            for cost in [0, 1, 512, 2048] {
                let mut f = fast_fragment();
                f.nixe_exit_costs.insert(2, cost);
                let code = compile(f, &isa).unwrap();
                let map = code.buffer.nixe_states.iter().find(|map| map.id == 2).unwrap();
                let poll = map.poll.unwrap();
                assert_eq!(poll.completed, cost);
                assert_eq!(poll.offset, map.offset + u32::from(map.patch_bytes));
                assert_eq!(map.values.len(), COUNT * 2);
                assert!(map
                    .values
                    .iter()
                    .any(|value| matches!(value.location, Location::Spill { .. })));
                assert!(map.values.iter().all(|value| value.location != Location::Unused));
                let end = map.offset as usize;
                let expected: Vec<u8> = if map.patch_bytes == 8 {
                    [0x49, 0x81, 0xee]
                        .into_iter()
                        .chain(u32::from(cost).to_le_bytes())
                        .chain([0x7e, 8])
                        .collect()
                } else {
                    [0xf1000294 | (u32::from(cost) << 10), 0x5400004d]
                        .into_iter()
                        .flat_map(u32::to_le_bytes)
                        .collect()
                };
                assert_eq!(&code.code_buffer()[end - expected.len()..end], expected);
                let mut bytes = code.code_buffer().to_vec();
                map.patch_exit(&mut bytes, 0, 0).unwrap();
                map.patch_poll(&mut bytes, 0, 0).unwrap();
                assert_ne!(
                    &bytes[end..end + map.patch_bytes as usize],
                    &bytes[poll.offset as usize..poll.offset as usize + map.patch_bytes as usize]
                );
                assert!(map.patch_poll(&mut bytes[..poll.offset as usize], 0, 8).is_err());
            }
            for (id, cost) in [(1, 1), (3, 1), (2, 2049)] {
                let mut f = fast_fragment();
                f.nixe_exit_costs.insert(id, cost);
                assert!(compile(f, &isa).err().unwrap().contains("Nixe checkpoint"));
            }
        }
    }
    let mut f = fast_fragment();
    f.nixe_exit_costs.insert(2, 1);
    f.clear();
    assert!(f.nixe_exit_costs.is_empty());
}

// ---- Faults ----

#[test]
fn nixe_fault_maps_follow_real_memory_pcs_on_both_targets() {
    for triple in ["x86_64-unknown-linux-gnu", "aarch64-unknown-linux-gnu"] {
        for allocator in ["single_pass", "backtracking"] {
            for operation in [0, 1, 2] {
                let isa = target(triple, allocator, true);
                let code = compile(fault_fragment(operation), &isa).unwrap();
                let faults = &code.buffer.nixe_faults;
                assert!(!faults.is_empty(), "{triple} {allocator} operation={operation}");
                if operation == 1 && triple.starts_with("x86") {
                    assert_eq!(faults.len(), 2, "load and cmpxchg in the RMW sequence");
                }
                for map in faults {
                    assert_eq!(map.id, 30);
                    assert_eq!(map.values.len(), COUNT * 2);
                    assert!(!map.entry);
                    assert_eq!(map.patch_bytes, 0);
                    if triple.starts_with("aarch64") {
                        assert_eq!(map.fault_bytes, 4);
                        assert_eq!(map.offset % 4, 0);
                    } else {
                        assert!((1..=15).contains(&map.fault_bytes));
                    }
                    // The extent is that of the one instruction at the offset.
                    assert_eq!(
                        decoded_len(&code.code_buffer()[map.offset as usize..], isa.isa.arch),
                        usize::from(map.fault_bytes)
                    );
                    assert!(code.buffer.traps.iter().any(|trap| *trap == map.offset));
                    assert!(map
                        .values
                        .iter()
                        .any(|v| matches!(v.location, Location::Spill { .. })));
                    assert!(map.values.iter().all(|v| v.location != Location::Unused));
                }
                assert_eq!(code.buffer.nixe_states.len(), 1, "delimiters emit no boundary maps");
            }
        }
    }
}

#[test]
fn nixe_fault_spans_reject_missing_pairs_and_unsafe_contents() {
    let isa = target("x86_64-unknown-linux-gnu", "single_pass", true);
    for (bad, expected) in [
        (0, "must match"),
        (1, "cannot nest"),
        (2, "cannot cross control flow"),
        (3, "requires a trapping memory"),
        (4, "cannot be notrap"),
        (5, "cannot contain non-memory traps"),
    ] {
        let mut f = Function::new();
        let block = f.make_block();
        let mut c = FuncCursor::at_bottom(&mut f, block);
        let address = c.get_pinned_reg(Type::I64);
        if bad != 0 {
            c.nixe_fault_start(1, &[address]);
        }
        if bad == 1 {
            c.nixe_state(2, &[address]);
        }
        if bad == 5 {
            c.trapnz(address);
        }
        if bad == 4 {
            let value = c.load(Type::I64, true, address, 0);
            c.nixe_fault_end(1, &[]);
            c.nixe_exit(2, &[value]);
        } else {
            if bad != 2 {
                c.nixe_fault_end(1, &[]);
            }
            c.nixe_exit(3, &[]);
        }
        assert!(compile(f, &isa).err().unwrap().contains(expected), "case {bad}");
    }
}

#[test]
fn nixe_fault_extents_exclude_following_instructions_and_padding() {
    for triple in ["x86_64-unknown-linux-gnu", "aarch64-unknown-linux-gnu"] {
        for allocator in ["single_pass", "backtracking"] {
            let isa = target(triple, allocator, true);
            for ty in [Type::I8, Type::I16, Type::I32, Type::I64, Type::I8X16] {
                for displacement in [0, 8, 8192] {
                    let mut f = Function::new();
                    let block = f.make_block();
                    let mut c = FuncCursor::at_bottom(&mut f, block);
                    let address = c.get_pinned_reg(Type::I64);
                    c.nixe_fault_start(1, &[address]);
                    let loaded = c.load(ty, false, address, displacement);
                    c.nixe_fault_end(1, &[]);
                    c.nixe_fault_start(2, &[address, loaded]);
                    c.store(false, loaded, address, displacement + 16);
                    c.nixe_fault_end(2, &[]);
                    c.nixe_exit(3, &[loaded]);
                    let code = compile(f, &isa).unwrap();
                    assert_eq!(code.buffer.nixe_faults.len(), 2);
                    for map in &code.buffer.nixe_faults {
                        let rest = &code.code_buffer()[map.offset as usize..];
                        let first = decoded_len(rest, isa.isa.arch);
                        assert!(first + decoded_len(&rest[first..], isa.isa.arch) <= rest.len());
                        assert_eq!(
                            usize::from(map.fault_bytes),
                            first,
                            "{triple}/{allocator}/{ty:?}/{displacement}: {first}"
                        );
                    }
                    let maps = &code.buffer.nixe_faults;
                    assert!(maps[0].offset + u32::from(maps[0].fault_bytes) <= maps[1].offset);
                }
            }
        }
    }
}

#[test]
fn nixe_separate_fault_spans_keep_ids_and_values_distinct() {
    for triple in ["x86_64-unknown-linux-gnu", "aarch64-unknown-linux-gnu"] {
        for allocator in ["single_pass", "backtracking"] {
            let isa = target(triple, allocator, true);
            let mut f = Function::new();
            let block = f.make_block();
            let mut c = FuncCursor::at_bottom(&mut f, block);
            let address = c.get_pinned_reg(Type::I64);
            c.nixe_fault_start(1, &[address]);
            let first = c.load(Type::I64, false, address, 0);
            c.nixe_fault_end(1, &[]);
            c.nixe_fault_start(2, &[first, address]);
            let second = c.load(Type::I64, false, first, 0);
            c.nixe_fault_end(2, &[]);
            c.nixe_exit(3, &[second]);
            let code = compile(f, &isa).unwrap();
            let maps = &code.buffer.nixe_faults;
            assert_eq!(maps.len(), 2);
            for (i, map) in maps.iter().enumerate() {
                assert_eq!(map.id, i as u64 + 1);
                assert_eq!(map.values.len(), i + 1);
            }
            assert!(maps[0].offset < maps[1].offset);
        }
    }
}

// ---- Entries ----

#[test]
fn nixe_jump_landings_are_included_in_fast_entry_offsets() {
    for triple in ["x86_64-unknown-linux-gnu", "aarch64-unknown-linux-gnu"] {
        for allocator in ["single_pass", "backtracking"] {
            let mut isa = target(triple, allocator, true);
            isa.isa.landings = true;
            let expected = if triple.starts_with("x86") {
                [0xf3, 0x0f, 0x1e, 0xfa]
            } else {
                0xd503249fu32.to_le_bytes() // BTI j, not BTI c
            };
            let code = compile(fast_fragment(), &isa).unwrap();
            let entry = &code.buffer.nixe_states[0];
            assert_eq!(entry.offset, 0);
            assert_eq!(&code.code_buffer()[..4], &expected);
            assert!(code.buffer.alignment >= 8);
            // The alignment is enough for every patch unit, and no more than needed
            // on the target with the wider ones.
            let alignment = u64::from(code.buffer.alignment);
            let exit = &code.buffer.nixe_states[1];
            let mut bytes = code.code_buffer().to_vec();
            exit.patch_exit(&mut bytes, 3 * alignment, 0).unwrap();
            assert_eq!(
                exit.patch_exit(&mut bytes, 3 * alignment + alignment / 2, 0).is_err(),
                triple.starts_with("x86")
            );
        }
    }
}

#[test]
fn nixe_entry_constraints_survive_allocation_on_both_targets() {
    for triple in ["x86_64-unknown-linux-gnu", "aarch64-unknown-linux-gnu"] {
        for allocator in ["single_pass", "backtracking"] {
            let isa = target(triple, allocator, true);
            let code = compile(constrained_fragment(), &isa).unwrap();
            let values = &code.buffer.nixe_states[0].values;
            for (i, index, vector) in [(0, 2, false), (1, 7, true), (4, 0, false), (5, 0, true)] {
                assert_eq!(values[i].location, Location::Register { index, vector });
            }
            assert!(values.iter().any(|v| matches!(v.location, Location::Spill { .. })));
        }
    }
}

#[test]
fn nixe_entry_constraints_reject_invalid_contracts_and_clear_on_reuse() {
    for triple in ["x86_64-unknown-linux-gnu", "aarch64-unknown-linux-gnu"] {
        let isa = target(triple, "single_pass", true);
        for (index, vector) in [(255, false), (15, true), (16, false), (18, false), (21, false)] {
            // Index 15 in the vector bank is valid, but not for an I64 input.
            let mut f = constrained_fragment();
            f.nixe_entry_constraints.get_mut(&1).unwrap()[0] =
                EntryConstraint::Register { index, vector };
            assert!(compile(f, &isa).err().unwrap().contains("invalid register or bank"));
        }
        for case in 0..3 {
            let mut f = constrained_fragment();
            let constraints = f.nixe_entry_constraints.get_mut(&1).unwrap();
            let expected = match case {
                0 => {
                    constraints.pop();
                    "match result count"
                }
                1 => {
                    constraints[2] = constraints[0];
                    "cannot overlap"
                }
                _ => {
                    f.nixe_entry_constraints.insert(100, vec![EntryConstraint::Any]);
                    "missing entry ID"
                }
            };
            assert!(compile(f, &isa).err().unwrap().contains(expected));
        }
    }
    let mut f = constrained_fragment();
    f.clear();
    assert!(f.nixe_entry_constraints.is_empty());
}

#[test]
fn nixe_fast_multi_entry_keeps_loop_inputs_local() {
    for triple in ["x86_64-unknown-linux-gnu", "aarch64-unknown-linux-gnu"] {
        for allocator in ["single_pass", "backtracking"] {
            let mut f = Function::new();
            let a = f.make_block();
            let b = f.make_block();
            let body = f.make_block();
            let end = f.make_block();
            f.blocks[b.0].cold = true;
            let signature: Vec<Type> = (0..COUNT).map(|_| Type::I64).collect();
            let values: Vec<Value> =
                (0..COUNT).map(|_| f.append_block_param(body, Type::I64)).collect();
            let count = f.append_block_param(body, Type::I64);
            for (block, id) in [(a, 1), (b, 2)] {
                let mut constraints = vec![EntryConstraint::Any; COUNT];
                constraints[0] = EntryConstraint::Register { index: id as u8, vector: false };
                f.nixe_entry_constraints.insert(id as u64, constraints);
                let mut c = FuncCursor::at_bottom(&mut f, block);
                let input = c.nixe_entry(&signature, id);
                let mut args = c.func.insts[input.0].results.to_vec();
                args.push(c.iconst(Type::I64, 3));
                c.jump(body, &args);
            }
            let mut c = FuncCursor::at_bottom(&mut f, body);
            let count = c.iadd_imm_s(count, -1);
            let mut args = values.to_vec();
            args.push(count);
            c.brif(count, (body, &args), (end, &[]));
            FuncCursor::at_bottom(&mut f, end).nixe_exit(3, &values);
            let isa = target(triple, allocator, true);
            let code = compile_entries(f, &[a, b], &isa).unwrap();
            for (block, id) in [(a, 1), (b, 2)] {
                let entry = code.buffer.nixe_states.iter().find(|map| map.id == id).unwrap();
                let label = code
                    .buffer
                    .nixe_entries
                    .iter()
                    .find(|(label, _)| *label == block)
                    .unwrap()
                    .1;
                assert_eq!(
                    entry.offset, label,
                    "entry cannot skip constants or allocator edits"
                );
                assert!(entry.entry);
                assert_eq!(entry.values.len(), COUNT);
                assert_eq!(
                    entry.values[0].location,
                    Location::Register { index: id as u8, vector: false }
                );
            }
        }
    }
}

#[test]
fn nixe_fast_entry_with_unused_results() {
    for triple in ["x86_64-unknown-linux-gnu", "aarch64-unknown-linux-gnu"] {
        for allocator in ["single_pass", "backtracking"] {
            let mut f = fast_fragment();
            let entry = f.blocks[0].insts[0];
            let first = f.insts[entry.0].results[0];
            f.blocks[0].insts.pop();
            FuncCursor::at_bottom(&mut f, Block(0)).nixe_exit(2, &[first]);
            let isa = target(triple, allocator, true);
            let code = compile(f, &isa).unwrap();
            assert!(code.buffer.nixe_states[0].entry);
            assert!(!matches!(
                code.buffer.nixe_states[0].values[0].location,
                Location::Unused
            ));
            assert!(code.buffer.nixe_states[0].values[1..]
                .iter()
                .all(|value| value.location == Location::Unused));
        }
    }
}

#[test]
fn nixe_fast_entries_define_register_and_spill_inputs_simultaneously() {
    for triple in ["x86_64-unknown-linux-gnu", "aarch64-unknown-linux-gnu"] {
        for allocator in ["single_pass", "backtracking"] {
            let isa = target(triple, allocator, true);
            let code = compile(fast_fragment(), &isa).unwrap();
            let entry = &code.buffer.nixe_states[0];
            assert!(entry.entry);
            assert_eq!(entry.offset, 0, "no executable definitions before physical inputs");
            assert_eq!(entry.values.len(), COUNT * 2);
            assert!(entry
                .values
                .iter()
                .any(|value| matches!(value.location, Location::Spill { .. })));
            // All independent live inputs need non-overlapping locations.
            for (i, value) in entry.values.iter().enumerate() {
                for other in &entry.values[..i] {
                    match (value.location, other.location) {
                        (Location::Spill { offset: a }, Location::Spill { offset: b }) => {
                            assert!(a + value.ty.bytes() <= b || b + other.ty.bytes() <= a);
                        }
                        (a, b) => assert_ne!(a, b),
                    }
                }
            }
            assert!(!code.buffer.nixe_states[1].entry);
        }
    }
}

// ---- Whole fragments ----

#[test]
fn nixe_boundaries_export_final_allocations_and_aligned_patch_units() {
    for triple in ["x86_64-unknown-linux-gnu", "aarch64-unknown-linux-gnu"] {
        for allocator in ["single_pass", "backtracking"] {
            for cold in [false, true] {
                let isa = target(triple, allocator, true);
                let code = compile(fragment(cold), &isa).unwrap();
                assert_eq!(code.buffer.nixe_states.len(), 2);
                let extent = code.buffer.frame_layout().unwrap().nixe_frame_size.unwrap();
                for (index, map) in code.buffer.nixe_states.iter().enumerate() {
                    assert_eq!(map.id, if index == 0 { 10 } else { 20 });
                    assert_eq!(map.values.len(), COUNT * 2 + index);
                    assert!(map
                        .values
                        .iter()
                        .any(|value| matches!(value.location, Location::Spill { .. })));
                    for value in &map.values {
                        match value.location {
                            Location::Spill { offset } => {
                                assert!(offset >= TRANSFER_BYTES + 48);
                                assert!(offset + value.ty.bytes() <= extent);
                                assert!(extent <= FRAME_BYTES);
                            }
                            Location::Register { index, vector: false } => {
                                let reserved: &[u8] = if triple.starts_with("x86") {
                                    &[4, 5, 11, 13, 14, 15]
                                } else {
                                    &[16, 17, 18, 19, 20, 21, 29, 30, 31]
                                };
                                assert!(!reserved.contains(&index));
                            }
                            Location::Register { .. } => {}
                            Location::Unused => panic!("boundary operand was lost"),
                            Location::Constant(_) => panic!("loaded inputs are not literals"),
                        }
                    }
                }
                let exit = &code.buffer.nixe_states[1];
                let patch = exit.offset as usize;
                if triple.starts_with("x86") {
                    assert_eq!(exit.patch_bytes, 8);
                    assert_eq!(patch % 8, 0);
                    assert_eq!(
                        &code.code_buffer()[patch..patch + 8],
                        &[0x0f, 0x0b, 0x90, 0x90, 0x90, 0x90, 0x90, 0x90]
                    );
                } else {
                    assert_eq!(exit.patch_bytes, 4);
                    assert_eq!(patch % 4, 0);
                    assert_eq!(
                        &code.code_buffer()[patch..patch + 4],
                        &0xd4200000u32.to_le_bytes()
                    );
                }
                assert_eq!(exit.values[0], *exit.values.last().unwrap());
                assert_eq!(code.buffer.nixe_states[0].patch_bytes, 0);
            }
        }
    }
}

#[test]
fn nixe_boundary_configuration_and_types_are_checked() {
    for triple in ["x86_64-unknown-linux-gnu", "aarch64-unknown-linux-gnu"] {
        let ordinary = target(triple, "single_pass", false);
        assert!(compile(fragment(false), &ordinary).err().unwrap().contains("requires Nixe ABI"));
        let isa = target(triple, "backtracking", true);
        for id in [-1, 10] {
            let mut f = fragment(false);
            let last = last_inst(&f, 1);
            if let InstructionData::NixeBoundary { imm, .. } = &mut f.insts[last.0].data {
                *imm = id;
            }
            assert!(compile(f, &isa).err().unwrap().contains("unique nonnegative IDs"));
        }
        let mut f = Function::new();
        let entry = f.make_block();
        FuncCursor::at_bottom(&mut f, entry).nixe_exit(0, &[]);
        let code = compile(f, &isa).unwrap();
        assert!(code.buffer.nixe_states[0].values.is_empty());
    }
}

// ---- Joining fragments ----

/// A register file, and the slot that vector registers pass through.
struct Machine {
    integers: [u64; 32],
    vectors: [u128; 32],
    slot: u128,
}

/// Runs one move of a bridge. Returns what it is called, its operands and its
/// length.
fn run_move(code: &[u8], x64: bool, m: &mut Machine) -> (&'static str, String, usize) {
    let pair = |vector: bool, dst: usize, src: usize| {
        format!("{}, {}", register_name(x64, vector, dst), register_name(x64, vector, src))
    };
    if x64 {
        if code[0] == 0xf3 {
            let reg = usize::from(((code[1] >> 2) & 1) * 8 + ((code[4] >> 3) & 7));
            let rm = usize::from((code[1] & 1) * 8 + (code[4] & 7));
            assert_eq!(code[2], 0x0f);
            if code[4] >> 6 == 3 {
                assert_eq!(code[3], 0x6f);
                m.vectors[reg] = m.vectors[rm];
                return ("movdqu", pair(true, reg, rm), 5);
            }
            // The frame pointer is r15; the displacement names the slot.
            assert_eq!((code[4] >> 6, rm), (2, 15));
            assert_eq!(u32::from_le_bytes(code[5..9].try_into().unwrap()), 1536);
            match code[3] {
                0x6f => m.vectors[reg] = m.slot,
                0x7f => m.slot = m.vectors[reg],
                other => panic!("not a transfer: {other:x}"),
            }
            let base = register_name(x64, false, rm);
            return ("movdqu", format!("{}, 1536({base})", register_name(x64, true, reg)), 9);
        }
        let reg = usize::from(((code[0] >> 2) & 1) * 8 + ((code[2] >> 3) & 7));
        let rm = usize::from((code[0] & 1) * 8 + (code[2] & 7));
        assert_eq!((code[0] & 0xfa, code[1], code[2] >> 6), (0x48, 0x89, 3));
        m.integers[rm] = m.integers[reg];
        return ("mov", pair(false, rm, reg), 3);
    }
    let word = u32::from_le_bytes(code[..4].try_into().unwrap());
    let low = word as usize & 31;
    let middle = (word >> 5) as usize & 31;
    let high = (word >> 16) as usize & 31;
    match word & 0xffe0_fc00 {
        0xaa00_0000 => {
            assert_eq!(middle, 31);
            m.integers[low] = m.integers[high];
            return ("mov", pair(false, low, high), 4);
        }
        0x4ea0_1c00 => {
            assert_eq!(middle, high);
            m.vectors[low] = m.vectors[high];
            return ("mov", pair(true, low, high), 4);
        }
        _ => {}
    }
    assert_eq!((middle, (word >> 10) & 0xfff), (21, 1536 / 16));
    let base = register_name(x64, false, middle);
    let operands = format!("{}, [{base}, 1536]", register_name(x64, true, low));
    match word >> 22 {
        0xf7 => {
            m.vectors[low] = m.slot;
            ("ldr", operands, 4)
        }
        0xf6 => {
            m.slot = m.vectors[low];
            ("str", operands, 4)
        }
        other => panic!("not a transfer: {other:x}"),
    }
}

#[test]
fn listings_name_returns_and_registers() {
    let mut f = Function::new();
    let block = f.make_block();
    FuncCursor::at_bottom(&mut f, block).return_();
    let code = compile(f, &target("x86_64-unknown-linux-gnu", "single_pass", false)).unwrap();
    assert_eq!(code.listing, ["ret "]);
    assert_eq!(code.code_buffer(), [0xc3]);
    for (x64, number, name) in [(true, 4, "%rsp"), (true, 11, "%r11"), (false, 31, "sp")] {
        assert_eq!(register_name(x64, false, number), name);
    }
    let mut bytes = Vec::new();
    move_register(&mut bytes, true, false, 4, 1);
    let mut m = Machine { integers: [0; 32], vectors: [0; 32], slot: 0 };
    assert_eq!(run_move(&bytes, true, &mut m).1, "%rsp, %rcx");
}

#[test]
fn nixe_independent_fragments_accept_empty_and_cyclic_transfers() {
    for triple in ["x86_64-unknown-linux-gnu", "aarch64-unknown-linux-gnu"] {
        let x64 = triple.starts_with("x86");
        for source_allocator in ["single_pass", "backtracking"] {
            for target_allocator in ["single_pass", "backtracking"] {
                for permute in [false, true] {
                    let a = compile(source(), &target(triple, source_allocator, true)).unwrap();
                    let exit = &a.buffer.nixe_states[0];
                    let locations: Vec<_> = exit.values.iter().map(|v| v.location).collect();
                    let ingress: Vec<_> =
                        (0..6).map(|i| locations[if permute { (i + 2) % 6 } else { i }]).collect();
                    let b =
                        compile(destination(&ingress), &target(triple, target_allocator, true))
                            .unwrap();
                    assert_eq!(
                        b.buffer.nixe_states[0]
                            .values
                            .iter()
                            .map(|v| v.location)
                            .collect::<Vec<_>>(),
                        ingress
                    );
                    assert_eq!(b.buffer.nixe_states[0].offset, 0);
                    for code in [&a, &b] {
                        let text = code.listing.join("\n");
                        assert!(!text.contains("%rsp"));
                        assert!(!text.contains(", sp") && !text.contains(" sp"));
                        assert!(!text.lines().any(|line| line.trim_start().starts_with("call")
                            || line.trim_start().starts_with("ret")));
                    }
                    let mut bytes = a.code_buffer().to_vec();
                    let bridge_start = bytes.len();
                    let bridge_exit = if permute {
                        for vector in [false, true] {
                            let registers: Vec<_> = locations
                                .iter()
                                .filter_map(|location| match *location {
                                    Location::Register { index, vector: bank }
                                        if bank == vector =>
                                    {
                                        Some(index)
                                    }
                                    _ => None,
                                })
                                .collect();
                            cycle(&mut bytes, x64, &registers, vector);
                        }
                        // Every input starts where the exit has it, and the
                        // moves take it where the entry wants it.
                        let mut m = Machine { integers: [7; 32], vectors: [9; 32], slot: 0 };
                        for (i, location) in locations.iter().enumerate() {
                            match *location {
                                Location::Register { index, vector: false } => {
                                    m.integers[usize::from(index)] = 100 + i as u64
                                }
                                Location::Register { index, vector: true } => {
                                    m.vectors[usize::from(index)] = 100 + i as u128
                                }
                                _ => panic!("six live inputs should fit in registers"),
                            }
                        }
                        let mut at = bridge_start;
                        let mut moves = 0;
                        while at < bytes.len() {
                            let (mnemonic, operands, len) = run_move(&bytes[at..], x64, &mut m);
                            assert!(
                                matches!(mnemonic, "mov" | "movq" | "movdqu" | "str" | "ldr"),
                                "{triple}: {mnemonic} {operands}"
                            );
                            assert!(!operands.contains("rsp") && !operands.contains("sp"));
                            at += len;
                            moves += 1;
                        }
                        assert_eq!(moves, 8);
                        assert_eq!(at, bytes.len());
                        for (i, location) in ingress.iter().enumerate() {
                            match *location {
                                Location::Register { index, vector: false } => {
                                    assert_eq!(m.integers[usize::from(index)], 100 + i as u64)
                                }
                                Location::Register { index, vector: true } => {
                                    assert_eq!(m.vectors[usize::from(index)], 100 + i as u128)
                                }
                                _ => panic!("six live inputs should fit in registers"),
                            }
                        }
                        while bytes.len() % 8 != 0 {
                            if x64 {
                                bytes.push(0x90);
                            } else {
                                bytes.extend_from_slice(&0xd503201fu32.to_le_bytes());
                            }
                        }
                        let patch = StateMap {
                            id: 0,
                            offset: bytes.len() as u32,
                            entry: false,
                            patch_bytes: if x64 { 8 } else { 4 },
                            fault_bytes: 0,
                            poll: None,
                            subtract_flags: false,
                            values: vec![],
                        };
                        bytes.resize(bytes.len() + patch.patch_bytes as usize, 0);
                        Some(patch)
                    } else {
                        None
                    };
                    // Align with actual target NOPs, never data executed on an edge.
                    while bytes.len() % 8 != 0 {
                        if x64 {
                            bytes.push(0x90);
                        } else {
                            bytes.extend_from_slice(&0xd503201fu32.to_le_bytes());
                        }
                    }
                    let target_start = bytes.len();
                    bytes.extend_from_slice(b.code_buffer());
                    let return_stub = bytes.len();
                    if x64 {
                        bytes.push(0xc3);
                    } else {
                        bytes.extend_from_slice(&0xd65f03c0u32.to_le_bytes());
                    }
                    exit.patch_exit(
                        &mut bytes,
                        0,
                        if permute { bridge_start } else { target_start } as u64,
                    )
                    .unwrap();
                    if let Some(patch) = bridge_exit {
                        patch.patch_exit(&mut bytes, 0, target_start as u64).unwrap();
                    }
                    b.buffer.nixe_states[1]
                        .patch_exit(
                            &mut bytes[target_start..],
                            target_start as u64,
                            return_stub as u64,
                        )
                        .unwrap();
                }
            }
        }
    }
}

// ---- Floating-point effects ----

#[test]
fn discarded_fp_is_emitted_once_per_operation_with_both_allocators() {
    for triple in ["x86_64-unknown-linux-gnu", "aarch64-unknown-linux-gnu"] {
        for allocator in ["single_pass", "backtracking"] {
            let isa = target(triple, allocator, true);
            for observable in [false, true] {
                let code = compile(discarded_conversions(observable), &isa).unwrap();
                let mnemonic = if triple.starts_with("x86") { "cvtsi2ss" } else { "scvtf" };
                let instructions = &code.listing;
                assert_eq!(
                    instructions.iter().filter(|i| i.starts_with(mnemonic)).count(),
                    if observable { 2 } else { 0 },
                    "{triple} {allocator} observable={observable}: {instructions:?}"
                );
                let conversions = &code.conversions;
                assert_eq!(conversions.len(), if observable { 2 } else { 0 });
                if observable {
                    let boundary = code.buffer.nixe_states.iter().find(|s| s.id == 1).unwrap();
                    assert!(conversions[0] < u64::from(boundary.offset));
                    assert!(conversions[1] >= u64::from(boundary.offset));
                }
            }
        }
    }
}
