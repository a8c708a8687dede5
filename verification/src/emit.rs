//! Machine code of boundaries.
//!
//! The budget is counted down in `r14` or `x20`. An exit that costs work
//! subtracts it and branches to its cold patch unit when nothing is left; a
//! comparison precedes each of the two patch units, so that the flags are those
//! of the subtraction on both paths. Patch units hold a trap until they are
//! patched, and are aligned to their own size.

use vstd::pervasive::unreached;
use vstd::prelude::*;

use crate::boundary::{Boundary, BoundaryValue};
use crate::buffer::MachBuffer;
use crate::bytes;
use crate::bytes::{put_bytes, put_le32, put_repeated};
use crate::frame::FrameLayout;
use crate::isa::{Arch, TargetIsa, MAX_COST};
use crate::patch;
use crate::reg::Reg;
use crate::state_map::StateMap;
use crate::types::Type;

verus! {

/// `count` one-byte `nop`s of x86-64.
pub open spec fn nops(count: int) -> Seq<u8> {
    Seq::new(count as nat, |i: int| 0x90u8)
}

/// Subtracts `cost` from the budget and keeps the flags.
pub open spec fn charge_code(arch: Arch, cost: u16) -> Seq<u8> {
    match arch {
        Arch::X64 => seq![0x4du8, 0x8du8, 0xb6u8] + bytes::le32(patch::displacement_word(-cost)),
        Arch::AArch64 => bytes::le32((0xd100_0294 + cost * 0x400) as u32),
    }
}

/// Branches over a patch unit if there is budget left.
pub open spec fn check_code(arch: Arch) -> Seq<u8> {
    match arch {
        Arch::X64 => seq![0x4du8, 0x85u8, 0xf6u8, 0x7fu8, 0x08u8],
        Arch::AArch64 => bytes::le32(0xf100_029f) + bytes::le32(0x5400_004c),
    }
}

/// Subtracts `cost` from the budget and, if nothing is left, branches over a
/// patch unit and what precedes it, `skipped` bytes in all.
pub open spec fn poll_code(arch: Arch, cost: u16, skipped: int) -> Seq<u8> {
    match arch {
        Arch::X64 => seq![0x49u8, 0x81u8, 0xeeu8] + bytes::le32(cost as u32) + seq![
            0x7eu8,
            skipped as u8,
        ],
        Arch::AArch64 => bytes::le32((0xf100_0294 + cost * 0x400) as u32) + bytes::le32(
            (0x5400_000d + (skipped + 4) / 4 * 0x20) as u32,
        ),
    }
}

/// Subtracts `rhs` from `lhs` for the flags alone.
pub open spec fn compare_code(arch: Arch, lhs: int, rhs: int, ty: Type) -> Seq<u8> {
    match arch {
        Arch::X64 => seq![
            (0x40 + (if ty == Type::I64 {
                8int
            } else {
                0
            }) + rhs / 8 * 4 + lhs / 8) as u8,
            0x39u8,
            (0xc0 + rhs % 8 * 8 + lhs % 8) as u8,
        ],
        Arch::AArch64 => bytes::le32(
            ((if ty == Type::I64 {
                0xeb00_001fint
            } else {
                0x6b00_001f
            }) + rhs * 0x1_0000 + lhs * 0x20) as u32,
        ),
    }
}

/// A patch unit that traps.
pub open spec fn trap_unit(arch: Arch) -> Seq<u8> {
    match arch {
        Arch::X64 => seq![0x0fu8, 0x0bu8] + nops(6),
        Arch::AArch64 => bytes::le32(0xd420_0000),
    }
}

/// The landing instruction for indirect jumps.
pub open spec fn landing_code(arch: Arch) -> Seq<u8> {
    match arch {
        Arch::X64 => seq![0xf3u8, 0x0fu8, 0x1eu8, 0xfau8],
        Arch::AArch64 => bytes::le32(0xd503_249f),
    }
}

/// How much padding aligns what follows `len` bytes, to patch units.
pub open spec fn padding(arch: Arch, len: int) -> int {
    match arch {
        Arch::X64 => (8 - len % 8) % 8,
        Arch::AArch64 => 0,
    }
}

impl Boundary {
    /// The comparison of an exit.
    pub open spec fn own_compare(self, arch: Arch) -> Seq<u8> {
        match self.compare {
            None => Seq::empty(),
            Some(c) => {
                let (lhs, ty) = self.values@[c.lhs as int];
                let (rhs, _) = self.values@[c.rhs as int];
                compare_code(arch, self.real_encoding(c.lhs), self.real_encoding(c.rhs), ty)
            },
        }
    }

    /// The encoding of the physical register that holds an operand.
    pub open spec fn real_encoding(self, index: usize) -> int {
        match self.values@[index as int].0 {
            BoundaryValue::Register(Reg::Real(preg)) => preg.encoding(),
            _ => arbitrary(),
        }
    }

    /// What precedes the first patch unit of an exit or a check.
    pub open spec fn lead(self, arch: Arch) -> Seq<u8> {
        if self.check {
            check_code(arch)
        } else {
            (match self.poll_cost {
                Some(cost) => poll_code(
                    arch,
                    cost,
                    self.own_compare(arch).len() + arch.patch_width(),
                ),
                None => Seq::empty(),
            }) + self.own_compare(arch)
        }
    }

    /// What follows the first patch unit: the cold path of a costly exit.
    pub open spec fn cold(self, arch: Arch) -> Seq<u8> {
        if !self.check && self.poll_cost is Some {
            let compare = self.own_compare(arch);
            compare + nops(
                self.poll_distance(arch.patch_width()) - arch.patch_width() - compare.len(),
            ) + trap_unit(arch)
        } else {
            Seq::empty()
        }
    }

    /// The offset of the boundary's map, when emission starts at `start`.
    pub open spec fn map_offset(self, isa: TargetIsa, start: int) -> int {
        if self.exit || self.check {
            let lead = self.lead(isa.arch);
            start + padding(isa.arch, start + lead.len()) + lead.len()
        } else {
            start
        }
    }

    /// The code of the boundary, when emission starts at `start`.
    pub open spec fn code(self, isa: TargetIsa, start: int) -> Seq<u8> {
        match self.charge {
            Some(cost) => charge_code(isa.arch, cost),
            None => if self.exit || self.check {
                let lead = self.lead(isa.arch);
                nops(padding(isa.arch, start + lead.len())) + lead + trap_unit(isa.arch)
                    + self.cold(isa.arch)
            } else if self.entry && isa.landings {
                landing_code(isa.arch)
            } else {
                Seq::empty()
            },
        }
    }

    /// The boundary is ready to be emitted: its operands are placed, only an exit
    /// has a cost or a comparison, costs are in range, and what it compares is in
    /// integer registers of the target.
    pub open spec fn emittable(self, isa: TargetIsa, frame: FrameLayout) -> bool {
        &&& self.placed(frame)
        &&& self.comparable()
        &&& self.poll_cost is Some || self.compare is Some ==> self.exit && !self.check
        &&& self.poll_cost matches Some(cost) ==> cost <= MAX_COST
        &&& self.charge matches Some(cost) ==> cost <= MAX_COST
        &&& self.compare matches Some(c) ==> self.real_encoding(c.lhs) < isa.arch.bank_size()
            && self.real_encoding(c.rhs) < isa.arch.bank_size()
    }
}

/// Appends the code of a charge.
fn put_charge(code: &mut Vec<u8>, arch: Arch, cost: u16)
    requires
        cost <= MAX_COST,
    ensures
        final(code)@ == old(code)@ + charge_code(arch, cost),
{
    match arch {
        Arch::X64 => {
            code.push(0x4d);
            code.push(0x8d);
            code.push(0xb6);
            let word: u32 = if cost == 0 {
                0
            } else {
                0xffff_ffff - (cost - 1) as u32
            };
            assert(word == patch::displacement_word(-cost));
            put_le32(code, word);
        },
        Arch::AArch64 => {
            put_le32(code, 0xd100_0294 + cost as u32 * 0x400);
        },
    }
    assert(code@ =~= old(code)@ + charge_code(arch, cost));
}

/// Appends the code of a budget check.
fn put_check(code: &mut Vec<u8>, arch: Arch)
    ensures
        final(code)@ == old(code)@ + check_code(arch),
{
    match arch {
        Arch::X64 => {
            code.push(0x4d);
            code.push(0x85);
            code.push(0xf6);
            code.push(0x7f);
            code.push(0x08);
        },
        Arch::AArch64 => {
            put_le32(code, 0xf100_029f);
            put_le32(code, 0x5400_004c);
        },
    }
    assert(code@ =~= old(code)@ + check_code(arch));
}

/// Appends the code of a costly exit up to its comparison.
fn put_poll(code: &mut Vec<u8>, arch: Arch, cost: u16, skipped: u8)
    requires
        cost <= MAX_COST,
        skipped <= 11,
    ensures
        final(code)@ == old(code)@ + poll_code(arch, cost, skipped as int),
{
    match arch {
        Arch::X64 => {
            code.push(0x49);
            code.push(0x81);
            code.push(0xee);
            put_le32(code, cost as u32);
            code.push(0x7e);
            code.push(skipped);
        },
        Arch::AArch64 => {
            put_le32(code, 0xf100_0294 + cost as u32 * 0x400);
            put_le32(code, 0x5400_000d + (skipped as u32 + 4) / 4 * 0x20);
        },
    }
    assert(code@ =~= old(code)@ + poll_code(arch, cost, skipped as int));
}

/// Appends a comparison.
fn put_compare(code: &mut Vec<u8>, arch: Arch, lhs: u8, rhs: u8, ty: Type)
    requires
        lhs < arch.bank_size(),
        rhs < arch.bank_size(),
    ensures
        final(code)@ == old(code)@ + compare_code(arch, lhs as int, rhs as int, ty),
{
    let wide = match ty {
        Type::I64 => true,
        _ => false,
    };
    match arch {
        Arch::X64 => {
            let width: u8 = if wide {
                8
            } else {
                0
            };
            code.push(0x40 + width + rhs / 8 * 4 + lhs / 8);
            code.push(0x39);
            code.push(0xc0 + rhs % 8 * 8 + lhs % 8);
        },
        Arch::AArch64 => {
            let opcode: u32 = if wide {
                0xeb00_001f
            } else {
                0x6b00_001f
            };
            put_le32(code, opcode + rhs as u32 * 0x1_0000 + lhs as u32 * 0x20);
        },
    }
    assert(code@ =~= old(code)@ + compare_code(arch, lhs as int, rhs as int, ty));
}

/// Appends a patch unit that traps.
fn put_trap_unit(code: &mut Vec<u8>, arch: Arch)
    ensures
        final(code)@ == old(code)@ + trap_unit(arch),
{
    match arch {
        Arch::X64 => {
            code.push(0x0f);
            code.push(0x0b);
            put_repeated(code, 0x90, 6);
        },
        Arch::AArch64 => {
            put_le32(code, 0xd420_0000);
        },
    }
    assert(code@ =~= old(code)@ + trap_unit(arch));
}

/// Appends a landing instruction.
fn put_landing(code: &mut Vec<u8>, arch: Arch)
    ensures
        final(code)@ == old(code)@ + landing_code(arch),
{
    match arch {
        Arch::X64 => {
            code.push(0xf3);
            code.push(0x0f);
            code.push(0x1e);
            code.push(0xfa);
        },
        Arch::AArch64 => {
            put_le32(code, 0xd503_249f);
        },
    }
    assert(code@ =~= old(code)@ + landing_code(arch));
}

impl Boundary {
    /// Appends the comparison of the boundary, if it has one.
    fn put_own_compare(&self, code: &mut Vec<u8>, arch: Arch, Ghost(frame): Ghost<FrameLayout>)
        requires
            self.comparable(),
            self.compare matches Some(c) ==> self.real_encoding(c.lhs) < arch.bank_size()
                && self.real_encoding(c.rhs) < arch.bank_size(),
            self.placed(frame),
        ensures
            final(code)@ == old(code)@ + self.own_compare(arch),
    {
        match self.comparison() {
            Some((lhs, rhs, ty)) => {
                proof {
                    let c = self.compare->Some_0;
                    let _ = self.values@[c.lhs as int];
                    let _ = self.values@[c.rhs as int];
                }
                match (lhs.to_real_reg(), rhs.to_real_reg()) {
                    (Some(lhs), Some(rhs)) => put_compare(
                        code,
                        arch,
                        lhs.hw_enc(),
                        rhs.hw_enc(),
                        ty,
                    ),
                    _ => unreached(),
                }
            },
            None => {
                assert(code@ =~= old(code)@ + self.own_compare(arch));
            },
        }
    }

    /// The code of a boundary is short.
    proof fn lemma_code_len(self, isa: TargetIsa, start: int)
        requires
            start >= 0,
        ensures
            self.own_compare(isa.arch).len() <= 4,
            self.lead(isa.arch).len() <= 12,
            self.code(isa, start).len() <= 44,
    {
    }

    /// Emits the boundary, and records its map unless it is a mere charge.
    pub fn emit(&self, sink: &mut MachBuffer, frame: &FrameLayout, isa: &TargetIsa)
        requires
            self.emittable(*isa, *frame),
            old(sink).code@.len() + self.code(*isa, old(sink).code@.len() as int).len() <= u32::MAX,
        ensures
            final(sink).code@ == old(sink).code@ + self.code(*isa, old(sink).code@.len() as int),
            final(sink).nixe_faults@ == old(sink).nixe_faults@,
            self.charge is Some ==> final(sink).nixe_states@ == old(sink).nixe_states@,
            self.charge is None ==> {
                &&& final(sink).nixe_states@.len() == old(sink).nixe_states@.len() + 1
                &&& final(sink).nixe_states@.drop_last() == old(sink).nixe_states@
                &&& self.is_state_map(
                    final(sink).nixe_states@.last(),
                    *frame,
                    self.map_offset(*isa, old(sink).code@.len() as int),
                    isa.arch.patch_width(),
                )
            },
    {
        let ghost before = sink.code@;
        let ghost start = before.len() as int;
        let arch = isa.arch;
        let patch_bytes = arch.patch_bytes();
        proof {
            self.lemma_code_len(*isa, start);
        }
        match self.charge {
            Some(cost) => {
                put_charge(&mut sink.code, arch, cost);
            },
            None => if self.exit || self.check {
                self.put_lead(&mut sink.code, arch, Ghost(*frame));
                let ghost led = sink.code@;
                assert(led.len() == self.map_offset(*isa, start));
                self.record(sink, frame, patch_bytes);
                put_trap_unit(&mut sink.code, arch);
                if !self.check && self.poll_cost.is_some() {
                    self.put_own_compare(&mut sink.code, arch, Ghost(*frame));
                    if arch == Arch::X64 && self.compare.is_some() {
                        put_repeated(&mut sink.code, 0x90, 5);
                    }
                    put_trap_unit(&mut sink.code, arch);
                }
                assert(sink.code@ =~= led + trap_unit(arch) + self.cold(arch));
                assert(sink.code@ =~= before + self.code(*isa, start));
            } else {
                self.record(sink, frame, patch_bytes);
                if self.entry && isa.landings {
                    put_landing(&mut sink.code, arch);
                }
                assert(sink.code@ =~= before + self.code(*isa, start));
            },
        }
    }

    /// Appends the padding before a patch unit and what leads to it.
    fn put_lead(&self, code: &mut Vec<u8>, arch: Arch, Ghost(frame): Ghost<FrameLayout>)
        requires
            old(code)@.len() + self.lead(arch).len() <= u32::MAX,
            self.placed(frame),
            self.comparable(),
            self.poll_cost matches Some(cost) ==> cost <= MAX_COST,
            self.compare matches Some(c) ==> self.real_encoding(c.lhs) < arch.bank_size()
                && self.real_encoding(c.rhs) < arch.bank_size(),
        ensures
            final(code)@ == old(code)@ + nops(
                padding(arch, old(code)@.len() as int + self.lead(arch).len()),
            ) + self.lead(arch),
    {
        let ghost start = code@.len() as int;
        let compare_len: u8 = match (self.compare, arch) {
            (None, _) => 0,
            (Some(_), Arch::X64) => 3,
            (Some(_), Arch::AArch64) => 4,
        };
        assert(compare_len == self.own_compare(arch).len());
        if arch == Arch::X64 {
            let lead_len: usize = if self.check {
                5
            } else if self.poll_cost.is_some() {
                9 + compare_len as usize
            } else {
                compare_len as usize
            };
            assert(lead_len == self.lead(arch).len());
            let pad: usize = (8 - (code.len() + lead_len) % 8) % 8;
            put_repeated(code, 0x90, pad);
        }
        assert(code@ =~= old(code)@ + nops(padding(arch, start + self.lead(arch).len())));
        let ghost padded = code@;
        if self.check {
            put_check(code, arch);
        } else {
            match self.poll_cost {
                Some(cost) => {
                    put_poll(code, arch, cost, compare_len + arch.patch_bytes());
                },
                None => {},
            }
            self.put_own_compare(code, arch, Ghost(frame));
        }
        assert(code@ =~= padded + self.lead(arch));
    }

    /// Emits one memory instruction that may fault, and records the map of what
    /// is preserved when it does.
    pub fn emit_faulting(&self, sink: &mut MachBuffer, frame: &FrameLayout, instruction: &[u8])
        requires
            self.placed(*frame),
            old(sink).code@.len() <= u32::MAX,
            instruction@.len() <= u8::MAX,
        ensures
            final(sink).code@ == old(sink).code@ + instruction@,
            final(sink).nixe_states@ == old(sink).nixe_states@,
            final(sink).nixe_faults@.len() == old(sink).nixe_faults@.len() + 1,
            final(sink).nixe_faults@.drop_last() == old(sink).nixe_faults@,
            ({
                let map = final(sink).nixe_faults@.last();
                &&& map.offset == old(sink).code@.len()
                &&& map.fault_bytes == instruction@.len()
                &&& self.is_fault_map((StateMap { offset: 0, fault_bytes: 0, ..map }), *frame)
            }),
    {
        let mut map = self.fault_map(frame);
        map.offset = sink.cur_offset();
        map.fault_bytes = instruction.len() as u8;
        sink.nixe_faults.push(map);
        assert(sink.nixe_faults@.drop_last() =~= old(sink).nixe_faults@);
        put_bytes(&mut sink.code, instruction);
    }
}

} // verus!
