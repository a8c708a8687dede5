//! The emitted and patched bytes, read as instructions.
//!
//! Here bytes are taken apart again: fields are read by division and remainder, so
//! that what is stated is what a processor would find, and not how the bytes were
//! put together.

use vstd::prelude::*;

use crate::boundary::{Boundary, BoundaryValue};
use crate::bytes;
use crate::emit;
use crate::error::CodegenResult;
use crate::frame::FrameLayout;
use crate::isa::{Arch, TargetIsa};
use crate::patch;
use crate::reg::{PReg, Reg};
use crate::state_map::StateMap;
use crate::types::Type;

verus! {

/// The little-endian word at a place of a byte sequence.
pub open spec fn word_at(code: Seq<u8>, at: int) -> int {
    code[at] + 0x100 * code[at + 1] + 0x1_0000 * code[at + 2] + 0x100_0000 * code[at + 3]
}

/// A field of `2 * half` values, read as two's complement.
pub open spec fn signed_field(field: int, half: int) -> int {
    if field < half {
        field
    } else {
        field - 2 * half
    }
}

/// The bytes of a word are its digits to the base 256, the lowest first, and
/// reading four bytes gives the word of these digits.
pub proof fn lemma_words_have_digits(word: u32, read: Seq<u8>)
    requires
        read.len() == 4,
    ensures
        bytes::le32(word).len() == 4,
        word_at(bytes::le32(word), 0) == word,
        bytes::from_le32(read) == word_at(read, 0),
        bytes::signed32(word) == signed_field(word as int, 0x8000_0000),
{
}

/// The word that stands at a place.
proof fn lemma_word_stands(code: Seq<u8>, at: int, word: u32)
    requires
        0 <= at,
        at + 4 <= code.len(),
        code.subrange(at, at + 4) == bytes::le32(word),
    ensures
        word_at(code, at) == word,
{
    let part = code.subrange(at, at + 4);
    lemma_words_have_digits(word, part);
    assert(part[0] == code[at] && part[1] == code[at + 1] && part[2] == code[at + 2] && part[3]
        == code[at + 3]);
}

/// Fields of an instruction with a 12-bit immediate on `x20`.
proof fn lemma_immediate_fields(opcode: int, immediate: int, word: int)
    requires
        0 <= immediate < 0x1000,
        word == opcode * 0x40_0000 + immediate * 0x400 + 0x294,
    ensures
        word / 0x40_0000 == opcode,
        word / 0x400 % 0x1000 == immediate,
        word / 0x20 % 0x20 == 20,
        word % 0x20 == 20,
{
    assert(word / 0x400 == opcode * 0x1000 + immediate);
    assert(word / 0x20 == opcode * 0x2_0000 + immediate * 0x20 + 20);
}

/// Fields of a conditional branch.
proof fn lemma_branch_fields(steps: int, word: int)
    requires
        0 <= steps < 0x100,
        word == 0x5400_000d + steps * 0x20,
    ensures
        word / 0x100_0000 == 0x54,
        word % 0x20 == 0xd,
        word / 0x20 % 0x8_0000 == steps,
{
    assert(word / 0x20 == 0x54 * 0x8_0000 + steps);
}

/// Fields of a comparison of two registers.
proof fn lemma_register_fields(opcode: int, lhs: int, rhs: int, word: int)
    requires
        0 <= lhs < 32,
        0 <= rhs < 32,
        word == opcode * 0x100_0000 + rhs * 0x1_0000 + lhs * 0x20 + 31,
    ensures
        word / 0x100_0000 == opcode,
        word / 0x20_0000 % 8 == 0,
        word / 0x400 % 0x40 == 0,
        word / 0x1_0000 % 0x20 == rhs,
        word / 0x20 % 0x20 == lhs,
        word % 0x20 == 31,
{
    assert(word / 0x20_0000 == opcode * 8);
    assert(word / 0x400 == opcode * 0x4000 + rhs * 0x40);
    assert(word / 0x1_0000 == opcode * 0x100 + rhs);
    assert(word / 0x20 == opcode * 0x8_0000 + rhs * 0x800 + lhs);
}

/// Fields of the prefix and of the operand byte of an x86-64 comparison.
proof fn lemma_rex_fields(wide: int, lhs: int, rhs: int, prefix: int, operands: int)
    requires
        0 <= lhs < 16,
        0 <= rhs < 16,
        wide == 0 || wide == 1,
        prefix == 0x40 + wide * 8 + rhs / 8 * 4 + lhs / 8,
        operands == 0xc0 + rhs % 8 * 8 + lhs % 8,
    ensures
        0 <= prefix < 256,
        0 <= operands < 256,
        prefix / 16 == 4,
        prefix / 2 % 2 == 0,
        prefix / 8 % 2 == wide,
        operands / 64 == 3,
        prefix % 2 * 8 + operands % 8 == lhs,
        prefix / 4 % 2 * 8 + operands / 8 % 8 == rhs,
{
    assert(0 <= lhs / 8 <= 1 && 0 <= rhs / 8 <= 1);
}

/// Writing a window changes the bytes that it covers to its own and no others.
pub proof fn lemma_window_is_local(code: Seq<u8>, start: int, window: Seq<u8>)
    requires
        0 <= start,
        start + window.len() <= code.len(),
    ensures
        bytes::splice(code, start, window).len() == code.len(),
        forall|i: int|
            0 <= i < window.len() ==> bytes::splice(code, start, window)[start + i]
                == #[trigger] window[i],
        forall|i: int|
            0 <= i < code.len() && !(start <= i < start + window.len()) ==> bytes::splice(
                code,
                start,
                window,
            )[i] == #[trigger] code[i],
{
    assert forall|i: int| 0 <= i < window.len() implies bytes::splice(code, start, window)[start
        + i] == #[trigger] window[i] by {
        assert(bytes::splice(code, start, window)[start + i] == window[start + i - start]);
    }
}

/// The unit at `at` is a direct jump from `address` to `target`, and nothing else:
/// `jmp rel32` and three one-byte `nop`s, or one `b`.
pub open spec fn jumps_to(
    code: Seq<u8>,
    at: int,
    width: u8,
    address: int,
    target: int,
) -> bool {
    if width == 8 {
        &&& code[at] == 0xe9
        &&& address + 5 + signed_field(word_at(code, at + 1), 0x8000_0000) == target
        &&& code[at + 5] == 0x90 && code[at + 6] == 0x90 && code[at + 7] == 0x90
    } else {
        &&& width == 4
        &&& word_at(code, at) / 0x400_0000 == 5
        &&& address + 4 * signed_field(word_at(code, at) % 0x400_0000, 0x200_0000) == target
    }
}

/// A unit of `width` bytes can branch from `address` to `target`.
pub open spec fn can_branch(width: u8, address: int, target: int) -> bool {
    ||| width == 8 && address % 8 == 0 && -0x8000_0000 <= target - (address + 5) < 0x8000_0000
    ||| width == 4 && address % 4 == 0 && target % 4 == 0 && -0x800_0000 <= target - address
        < 0x800_0000
}

proof fn lemma_x64_window_bytes(address: int, target: u64)
    ensures
        patch::x64_window(address, target) is Ok <==> can_branch(8, address, target as int),
        patch::x64_window(address, target) is Ok ==> {
            let window = patch::x64_window(address, target)->Ok_0;
            window.len() == 8 && jumps_to(window, 0, 8, address, target as int)
        },
{
    let delta = target - (address + 5);
    if patch::x64_window(address, target) is Ok {
        let word = patch::displacement_word(delta);
        lemma_words_have_digits(word, bytes::le32(word));
        let window = patch::x64_window(address, target)->Ok_0;
        assert(window.len() == 8);
        assert(window[1] == bytes::le32(word)[0]);
        assert(window[2] == bytes::le32(word)[1]);
        assert(window[3] == bytes::le32(word)[2]);
        assert(window[4] == bytes::le32(word)[3]);
        assert(word_at(window, 1) == word);
        assert(signed_field(word as int, 0x8000_0000) == delta);
    }
}

proof fn lemma_aarch64_window_bytes(address: int, target: u64)
    ensures
        patch::aarch64_window(address, target) is Ok <==> can_branch(4, address, target as int),
        patch::aarch64_window(address, target) is Ok ==> {
            let window = patch::aarch64_window(address, target)->Ok_0;
            window.len() == 4 && jumps_to(window, 0, 4, address, target as int)
        },
{
    let delta = target - address;
    assert(target as int % 4 == 0 <==> target % 4 == 0);
    if patch::aarch64_window(address, target) is Ok {
        let field = delta / 4 % 0x400_0000;
        let word = (0x1400_0000 + field) as u32;
        lemma_words_have_digits(word, bytes::le32(word));
        let window = patch::aarch64_window(address, target)->Ok_0;
        assert(window.len() == 4 && word_at(window, 0) == word);
        assert(word as int / 0x400_0000 == 5 && word as int % 0x400_0000 == field);
        assert(delta % 4 == 0);
        assert(signed_field(field, 0x200_0000) == delta / 4);
    }
}

/// What patching does. It succeeds exactly if the address of the unit exists, the
/// unit lies in the code, and a unit of its width can branch to the target. The
/// unit then is a jump to the target and all other bytes are as before.
pub proof fn lemma_patch_outcome(
    offset: u32,
    width: u8,
    before: Seq<u8>,
    after: Seq<u8>,
    base: u64,
    target: u64,
    result: CodegenResult<()>,
)
    requires
        before.len() <= usize::MAX,
        patch::branch_installed(offset, width, before, after, base, target, result),
    ensures
        result is Ok <==> base + offset <= u64::MAX && offset + width <= before.len() && can_branch(
            width,
            base + offset,
            target as int,
        ),
        result is Ok ==> jumps_to(after, offset as int, width, base + offset, target as int),
        result is Err ==> after == before,
        after.len() == before.len(),
        forall|i: int|
            0 <= i < before.len() && !(offset <= i < offset + width) ==> #[trigger] after[i]
                == before[i],
{
    let address = base + offset;
    lemma_x64_window_bytes(address, target);
    lemma_aarch64_window_bytes(address, target);
    if let Ok(window) = patch::branch_window(offset, width, before.len(), base, target) {
        assert(window.len() == width && jumps_to(window, 0, width, address, target as int));
        lemma_window_is_local(before, offset as int, window);
        assert forall|i: int| 0 <= i < width implies after[offset + i] == #[trigger] window[i] by {}
        assert(after[offset + 0] == window[0]);
        assert(after[offset + 1] == window[1]);
        assert(after[offset + 2] == window[2]);
        assert(after[offset + 3] == window[3]);
        if width == 8 {
            assert(after[offset + 4] == window[4]);
            assert(after[offset + 5] == window[5]);
            assert(after[offset + 6] == window[6]);
            assert(after[offset + 7] == window[7]);
        }
    }
}

/// Why patching fails, in the words of the error: the first of these that holds.
pub proof fn lemma_patch_refusals(
    offset: u32,
    width: u8,
    before: Seq<u8>,
    after: Seq<u8>,
    base: u64,
    target: u64,
    result: CodegenResult<()>,
)
    requires
        before.len() <= usize::MAX,
        patch::branch_installed(offset, width, before, after, base, target, result),
        result is Err,
    ensures
        result->Err_0.text() == "Nixe exit patch: "@ + (if base + offset > u64::MAX {
            "address overflow"@
        } else if offset + width > usize::MAX {
            "offset overflow"@
        } else if offset + width > before.len() {
            "patch outside code"@
        } else if width == 8 && (base + offset) % 8 != 0 {
            "unaligned x86-64 patch"@
        } else if width == 8 {
            "x86-64 target requires an island"@
        } else if width == 4 && ((base + offset) % 4 != 0 || target as int % 4 != 0) {
            "unaligned AArch64 branch"@
        } else if width == 4 {
            "AArch64 target requires an island"@
        } else {
            "not an exit patch"@
        }),
{
    assert(target as int % 4 == 0 <==> target % 4 == 0);
}

/// A charge is one instruction that subtracts the cost from the budget register
/// and sets no flags: `lea r14, [r14 - cost]` or `sub x20, x20, #cost`.
pub proof fn lemma_charge_subtracts_cost(cost: u16)
    requires
        cost < 4096,
    ensures
        ({
            let code = emit::charge_code(Arch::X64, cost);
            &&& code.len() == 7
            &&& code[0] == 0x4d && code[1] == 0x8d && code[2] == 0xb6
            &&& signed_field(word_at(code, 3), 0x8000_0000) == -cost
        }),
        ({
            let code = emit::charge_code(Arch::AArch64, cost);
            let word = word_at(code, 0);
            &&& code.len() == 4
            &&& word / 0x40_0000 == 0x344
            &&& word / 0x400 % 0x1000 == cost
            &&& word / 0x20 % 0x20 == 20 && word % 0x20 == 20
        }),
{
    lemma_x64_charge(cost);
    let code = emit::charge_code(Arch::AArch64, cost);
    let word = (0xd100_0294 + cost * 0x400) as u32;
    assert(code.subrange(0, 4) =~= bytes::le32(word));
    lemma_word_stands(code, 0, word);
    lemma_immediate_fields(0x344, cost as int, word as int);
}

proof fn lemma_x64_charge(cost: u16)
    ensures
        ({
            let code = emit::charge_code(Arch::X64, cost);
            &&& code.len() == 7
            &&& code[0] == 0x4d && code[1] == 0x8d && code[2] == 0xb6
            &&& signed_field(word_at(code, 3), 0x8000_0000) == -cost
        }),
{
    let code = emit::charge_code(Arch::X64, cost);
    let low = patch::displacement_word(-cost);
    assert(code.subrange(3, 7) =~= bytes::le32(low));
    lemma_word_stands(code, 3, low);
    assert(signed_field(low as int, 0x8000_0000) == -cost);
}

/// At `at` stands the deadline poll of an x86-64 exit: `sub r14, cost` and `jle`
/// over `skipped` bytes.
#[verifier::opaque]
pub open spec fn polls_x64(code: Seq<u8>, at: int, cost: int, skipped: int) -> bool {
    &&& code[at] == 0x49 && code[at + 1] == 0x81 && code[at + 2] == 0xee
    &&& word_at(code, at + 3) == cost
    &&& code[at + 7] == 0x7e
    &&& code[at + 8] == skipped
}

/// At `at` stands the deadline poll of an AArch64 exit: `subs x20, x20, #cost` and
/// `b.le` to `skipped` bytes behind itself.
#[verifier::opaque]
pub open spec fn polls_aarch64(code: Seq<u8>, at: int, cost: int, skipped: int) -> bool {
    let subtract = word_at(code, at);
    let branch = word_at(code, at + 4);
    &&& subtract / 0x40_0000 == 0x3c4
    &&& subtract / 0x400 % 0x1000 == cost
    &&& subtract / 0x20 % 0x20 == 20 && subtract % 0x20 == 20
    &&& branch / 0x100_0000 == 0x54
    &&& branch % 0x20 == 0xd
    &&& branch / 0x20 % 0x8_0000 * 4 == 4 + skipped
}

proof fn lemma_x64_poll(cost: u16, skipped: int)
    requires
        0 <= skipped < 128,
    ensures
        emit::poll_code(Arch::X64, cost, skipped).len() == 9,
        polls_x64(emit::poll_code(Arch::X64, cost, skipped), 0, cost as int, skipped),
{
    reveal(polls_x64);
    let code = emit::poll_code(Arch::X64, cost, skipped);
    assert(code.subrange(3, 7) =~= bytes::le32(cost as u32));
    lemma_word_stands(code, 3, cost as u32);
}

proof fn lemma_aarch64_poll(cost: u16, skipped: int)
    requires
        cost < 4096,
        0 <= skipped < 128,
    ensures
        emit::poll_code(Arch::AArch64, cost, skipped).len() == 8,
        skipped % 4 == 0 ==> polls_aarch64(
            emit::poll_code(Arch::AArch64, cost, skipped),
            0,
            cost as int,
            skipped,
        ),
{
    reveal(polls_aarch64);
    let code = emit::poll_code(Arch::AArch64, cost, skipped);
    let subtract = (0xf100_0294 + cost * 0x400) as u32;
    let branch = (0x5400_000d + (skipped + 4) / 4 * 0x20) as u32;
    assert(code.subrange(0, 4) =~= bytes::le32(subtract));
    assert(code.subrange(4, 8) =~= bytes::le32(branch));
    lemma_word_stands(code, 0, subtract);
    lemma_word_stands(code, 4, branch);
    lemma_immediate_fields(0x3c4, cost as int, subtract as int);
    lemma_branch_fields((skipped + 4) / 4, branch as int);
}

/// At `at` stands a comparison that subtracts `rhs` from `lhs` and keeps both:
/// `cmp lhs, rhs`.
#[verifier::opaque]
pub open spec fn compares(
    arch: Arch,
    code: Seq<u8>,
    at: int,
    lhs: int,
    rhs: int,
    wide: bool,
) -> bool {
    match arch {
        Arch::X64 => {
            let (prefix, operands) = (code[at] as int, code[at + 2] as int);
            &&& prefix / 16 == 4 && prefix / 2 % 2 == 0
            &&& prefix / 8 % 2 == 1 <==> wide
            &&& code[at + 1] == 0x39
            &&& operands / 64 == 3
            &&& prefix % 2 * 8 + operands % 8 == lhs
            &&& prefix / 4 % 2 * 8 + operands / 8 % 8 == rhs
        },
        Arch::AArch64 => {
            let word = word_at(code, at);
            &&& word / 0x100_0000 == (if wide {
                0xebint
            } else {
                0x6b
            })
            &&& word / 0x20_0000 % 8 == 0 && word / 0x400 % 0x40 == 0
            &&& word / 0x1_0000 % 0x20 == rhs
            &&& word / 0x20 % 0x20 == lhs
            &&& word % 0x20 == 31
        },
    }
}

proof fn lemma_compare_code(arch: Arch, lhs: int, rhs: int, ty: Type)
    requires
        0 <= lhs < (if arch == Arch::X64 {
            16int
        } else {
            32
        }),
        0 <= rhs < (if arch == Arch::X64 {
            16int
        } else {
            32
        }),
    ensures
        emit::compare_code(arch, lhs, rhs, ty).len() == (if arch == Arch::X64 {
            3int
        } else {
            4
        }),
        compares(arch, emit::compare_code(arch, lhs, rhs, ty), 0, lhs, rhs, ty == Type::I64),
{
    reveal(compares);
    let code = emit::compare_code(arch, lhs, rhs, ty);
    let wide: int = if ty == Type::I64 {
        1
    } else {
        0
    };
    match arch {
        Arch::X64 => {
            let prefix = 0x40 + wide * 8 + rhs / 8 * 4 + lhs / 8;
            let operands = 0xc0 + rhs % 8 * 8 + lhs % 8;
            lemma_rex_fields(wide, lhs, rhs, prefix, operands);
            assert(code[0] == prefix);
            assert(code[2] == operands);
        },
        Arch::AArch64 => {
            let opcode: int = if wide == 1 {
                0xeb
            } else {
                0x6b
            };
            let word = (opcode * 0x100_0000 + rhs * 0x1_0000 + lhs * 0x20 + 31) as u32;
            assert(code.subrange(0, 4) =~= bytes::le32(word));
            lemma_word_stands(code, 0, word);
            lemma_register_fields(opcode, lhs, rhs, word as int);
        },
    }
}

/// At `at` stands a patch unit that traps: `ud2` and six one-byte `nop`s, or
/// `brk #0`.
#[verifier::opaque]
pub open spec fn traps(arch: Arch, code: Seq<u8>, at: int) -> bool {
    match arch {
        Arch::X64 => {
            &&& code[at] == 0x0f && code[at + 1] == 0x0b
            &&& forall|i: int| at + 2 <= i < at + 8 ==> #[trigger] code[i] == 0x90
        },
        Arch::AArch64 => word_at(code, at) == 0xd420_0000,
    }
}

/// The number of bytes of a patch unit.
pub open spec fn unit_size(arch: Arch) -> int {
    match arch {
        Arch::X64 => 8,
        Arch::AArch64 => 4,
    }
}

proof fn lemma_trap_unit(arch: Arch)
    ensures
        emit::trap_unit(arch).len() == unit_size(arch),
        arch.patch_width() == unit_size(arch),
        traps(arch, emit::trap_unit(arch), 0),
{
    reveal(traps);
    lemma_words_have_digits(0xd420_0000, bytes::le32(0xd420_0000));
}

/// A landing is one instruction that indirect jumps may go to: `endbr64` or
/// `bti j`.
pub proof fn lemma_landing_code()
    ensures
        emit::landing_code(Arch::X64).len() == 4,
        word_at(emit::landing_code(Arch::X64), 0) == 0xfa1e_0ff3,
        emit::landing_code(Arch::AArch64).len() == 4,
        word_at(emit::landing_code(Arch::AArch64), 0) == 0xd503_249f,
{
    lemma_words_have_digits(0xd503_249f, bytes::le32(0xd503_249f));
}

/// `piece` stands at `at` of `code`.
spec fn stands(code: Seq<u8>, at: int, piece: Seq<u8>) -> bool {
    &&& 0 <= at
    &&& at + piece.len() <= code.len()
    &&& code.subrange(at, at + piece.len()) == piece
}

proof fn lemma_byte_stands(code: Seq<u8>, at: int, piece: Seq<u8>, i: int)
    requires
        stands(code, at, piece),
        0 <= i < piece.len(),
    ensures
        code[at + i] == piece[i],
{
    assert(code.subrange(at, at + piece.len())[i] == code[at + i]);
}

proof fn lemma_inner_word_stands(code: Seq<u8>, at: int, piece: Seq<u8>, i: int)
    requires
        stands(code, at, piece),
        0 <= i,
        i + 4 <= piece.len(),
    ensures
        word_at(code, at + i) == word_at(piece, i),
{
    lemma_byte_stands(code, at, piece, i);
    lemma_byte_stands(code, at, piece, i + 1);
    lemma_byte_stands(code, at, piece, i + 2);
    lemma_byte_stands(code, at, piece, i + 3);
}

proof fn lemma_poll_stands(arch: Arch, code: Seq<u8>, at: int, cost: u16, skipped: int)
    requires
        stands(code, at, emit::poll_code(arch, cost, skipped)),
        cost < 4096,
        0 <= skipped < 128,
        arch == Arch::AArch64 ==> skipped % 4 == 0,
    ensures
        arch == Arch::X64 ==> polls_x64(code, at, cost as int, skipped),
        arch == Arch::AArch64 ==> polls_aarch64(code, at, cost as int, skipped),
{
    reveal(polls_x64);
    reveal(polls_aarch64);
    let piece = emit::poll_code(arch, cost, skipped);
    match arch {
        Arch::X64 => {
            lemma_x64_poll(cost, skipped);
            lemma_byte_stands(code, at, piece, 0);
            lemma_byte_stands(code, at, piece, 1);
            lemma_byte_stands(code, at, piece, 2);
            lemma_inner_word_stands(code, at, piece, 3);
            lemma_byte_stands(code, at, piece, 7);
            lemma_byte_stands(code, at, piece, 8);
        },
        Arch::AArch64 => {
            lemma_aarch64_poll(cost, skipped);
            lemma_inner_word_stands(code, at, piece, 0);
            lemma_inner_word_stands(code, at, piece, 4);
        },
    }
}

proof fn lemma_compare_stands(arch: Arch, code: Seq<u8>, at: int, lhs: int, rhs: int, ty: Type)
    requires
        stands(code, at, emit::compare_code(arch, lhs, rhs, ty)),
        0 <= lhs < (if arch == Arch::X64 {
            16int
        } else {
            32
        }),
        0 <= rhs < (if arch == Arch::X64 {
            16int
        } else {
            32
        }),
    ensures
        compares(arch, code, at, lhs, rhs, ty == Type::I64),
{
    reveal(compares);
    let piece = emit::compare_code(arch, lhs, rhs, ty);
    lemma_compare_code(arch, lhs, rhs, ty);
    match arch {
        Arch::X64 => {
            lemma_byte_stands(code, at, piece, 0);
            lemma_byte_stands(code, at, piece, 1);
            lemma_byte_stands(code, at, piece, 2);
        },
        Arch::AArch64 => {
            lemma_inner_word_stands(code, at, piece, 0);
        },
    }
}

proof fn lemma_trap_stands(arch: Arch, code: Seq<u8>, at: int)
    requires
        stands(code, at, emit::trap_unit(arch)),
    ensures
        traps(arch, code, at),
{
    reveal(traps);
    let piece = emit::trap_unit(arch);
    lemma_trap_unit(arch);
    match arch {
        Arch::X64 => {
            lemma_byte_stands(code, at, piece, 0);
            lemma_byte_stands(code, at, piece, 1);
            assert forall|i: int| at + 2 <= i < at + 8 implies #[trigger] code[i] == 0x90 by {
                lemma_byte_stands(code, at, piece, i - at);
            }
        },
        Arch::AArch64 => {
            lemma_inner_word_stands(code, at, piece, 0);
        },
    }
}

/// Only one-byte `nop`s stand from `from` up to `to`.
pub open spec fn only_nops(code: Seq<u8>, from: int, to: int) -> bool {
    forall|i: int| from <= i < to ==> #[trigger] code[i] == 0x90
}

/// The comparison of an exit reads two integer registers of the target.
pub open spec fn compare_registers(b: Boundary, arch: Arch, l: PReg, r: PReg) -> bool {
    b.compare matches Some(c) ==> {
        &&& b.values@[c.lhs as int].0 == BoundaryValue::Register(Reg::Real(l))
        &&& b.values@[c.rhs as int].0 == BoundaryValue::Register(Reg::Real(r))
        &&& l.index as int % 64 < (if arch == Arch::X64 {
            16int
        } else {
            32
        })
        &&& r.index as int % 64 < (if arch == Arch::X64 {
            16int
        } else {
            32
        })
    }
}

/// How long the comparison of a boundary is.
pub open spec fn compare_size(b: Boundary, arch: Arch) -> int {
    if b.compare is None {
        0
    } else if arch == Arch::X64 {
        3
    } else {
        4
    }
}

/// How long the deadline poll of a boundary is.
pub open spec fn poll_size(b: Boundary, arch: Arch) -> int {
    if b.poll_cost is None {
        0
    } else if arch == Arch::X64 {
        9
    } else {
        8
    }
}

/// The code of an exit whose patch unit is at `hot`, read as instructions. What
/// leads to the unit is padding, then the poll, then the comparison. A poll
/// subtracts the cost and branches right behind the unit when nothing is left.
/// There the comparison stands again, and the deadline unit ends the code.
pub open spec fn reads_as_exit(
    b: Boundary,
    arch: Arch,
    code: Seq<u8>,
    hot: int,
    l: PReg,
    r: PReg,
) -> bool {
    let unit = unit_size(arch);
    let compare = compare_size(b, arch);
    let poll = poll_size(b, arch);
    let lead = hot - compare - poll;
    let cold = hot + unit + (if b.compare is None {
        0
    } else {
        unit
    });
    &&& 0 <= lead < unit
    &&& arch == Arch::AArch64 ==> lead == 0
    &&& only_nops(code, 0, lead)
    &&& traps(arch, code, hot)
    &&& b.poll_cost matches Some(cost) ==> {
        &&& arch == Arch::X64 ==> polls_x64(code, lead, cost as int, compare + unit)
        &&& arch == Arch::AArch64 ==> polls_aarch64(code, lead, cost as int, compare + unit)
        &&& only_nops(code, hot + unit + compare, cold)
        &&& traps(arch, code, cold)
    }
    &&& b.compare matches Some(c) ==> {
        let wide = b.values@[c.lhs as int].1 == Type::I64;
        &&& compares(
            arch,
            code,
            hot - compare,
            l.index as int % 64,
            r.index as int % 64,
            wide,
        )
        &&& b.poll_cost is Some ==> compares(
            arch,
            code,
            hot + unit,
            l.index as int % 64,
            r.index as int % 64,
            wide,
        )
    }
    &&& code.len() == (if b.poll_cost is None {
        hot + unit
    } else {
        cold + unit
    })
}

/// Where the parts of an exit stand.
proof fn lemma_exit_parts(
    pad: Seq<u8>,
    front: Seq<u8>,
    piece: Seq<u8>,
    trap: Seq<u8>,
    gap: Seq<u8>,
)
    ensures
        ({
            let short = pad + (front + piece) + trap + Seq::empty();
            let lead = pad.len() as int;
            let hot = lead + front.len() + piece.len();
            &&& short.len() == hot + trap.len()
            &&& stands(short, 0, pad)
            &&& stands(short, lead, front)
            &&& stands(short, hot - piece.len(), piece)
            &&& stands(short, hot, trap)
        }),
        ({
            let long = pad + (front + piece) + trap + (piece + gap + trap);
            let lead = pad.len() as int;
            let hot = lead + front.len() + piece.len();
            let behind = hot + trap.len();
            &&& long.len() == behind + piece.len() + gap.len() + trap.len()
            &&& stands(long, 0, pad)
            &&& stands(long, lead, front)
            &&& stands(long, hot - piece.len(), piece)
            &&& stands(long, hot, trap)
            &&& stands(long, behind, piece)
            &&& stands(long, behind + piece.len(), gap)
            &&& stands(long, behind + piece.len() + gap.len(), trap)
        }),
{
    let lead = pad.len() as int;
    let hot = lead + front.len() + piece.len();
    let behind = hot + trap.len();
    let short = pad + (front + piece) + trap + Seq::empty();
    assert(short.subrange(0, lead) =~= pad);
    assert(short.subrange(lead, lead + front.len()) =~= front);
    assert(short.subrange(hot - piece.len(), hot) =~= piece);
    assert(short.subrange(hot, behind) =~= trap);
    let long = pad + (front + piece) + trap + (piece + gap + trap);
    assert(long.subrange(0, lead) =~= pad);
    assert(long.subrange(lead, lead + front.len()) =~= front);
    assert(long.subrange(hot - piece.len(), hot) =~= piece);
    assert(long.subrange(hot, behind) =~= trap);
    assert(long.subrange(behind, behind + piece.len()) =~= piece);
    assert(long.subrange(behind + piece.len(), behind + piece.len() + gap.len()) =~= gap);
    assert(long.subrange(
        behind + piece.len() + gap.len(),
        behind + piece.len() + gap.len() + trap.len(),
    ) =~= trap);
}

proof fn lemma_nops_stand(code: Seq<u8>, at: int, count: int)
    requires
        count >= 0,
        stands(code, at, emit::nops(count)),
    ensures
        only_nops(code, at, at + count),
{
    assert forall|i: int| at <= i < at + count implies #[trigger] code[i] == 0x90 by {
        lemma_byte_stands(code, at, emit::nops(count), i - at);
    }
}

/// How much padding an exit or a check has.
proof fn lemma_padding(arch: Arch, start: int, lead: int)
    requires
        start >= 0,
        lead >= 0,
        arch == Arch::AArch64 ==> lead % 4 == 0,
    ensures
        0 <= emit::padding(arch, start + lead) < unit_size(arch),
        arch == Arch::AArch64 ==> emit::padding(arch, start + lead) == 0,
        arch == Arch::X64 || start % 4 == 0 ==> (start + emit::padding(arch, start + lead) + lead)
            % unit_size(arch) == 0,
{
}

proof fn lemma_exit_sizes(b: Boundary, isa: TargetIsa, l: PReg, r: PReg)
    requires
        b.poll_cost matches Some(cost) ==> cost <= 2048,
        compare_registers(b, isa.arch, l, r),
    ensures
        b.own_compare(isa.arch).len() == compare_size(b, isa.arch),
        b.compare matches Some(c) ==> b.own_compare(isa.arch) == emit::compare_code(
            isa.arch,
            l.index as int % 64,
            r.index as int % 64,
            b.values@[c.lhs as int].1,
        ),
        b.poll_cost matches Some(cost) ==> emit::poll_code(
            isa.arch,
            cost,
            compare_size(b, isa.arch) + unit_size(isa.arch),
        ).len() == poll_size(b, isa.arch),
        isa.arch.patch_width() == unit_size(isa.arch),
        emit::trap_unit(isa.arch).len() == unit_size(isa.arch),
        b.poll_distance(isa.arch.patch_width()) == unit_size(isa.arch) * (if b.compare is None {
            1int
        } else {
            2
        }),
{
    lemma_trap_unit(isa.arch);
    if let Some(c) = b.compare {
        lemma_compare_code(
            isa.arch,
            l.index as int % 64,
            r.index as int % 64,
            b.values@[c.lhs as int].1,
        );
    }
    if let Some(cost) = b.poll_cost {
        lemma_x64_poll(cost, compare_size(b, isa.arch) + unit_size(isa.arch));
        lemma_aarch64_poll(cost, compare_size(b, isa.arch) + unit_size(isa.arch));
    }
}

/// The parts of the code of an exit.
spec fn exit_parts(b: Boundary, isa: TargetIsa, start: int) -> (
    Seq<u8>,
    Seq<u8>,
    Seq<u8>,
    Seq<u8>,
    Seq<u8>,
) {
    let arch = isa.arch;
    let compare = compare_size(b, arch);
    let poll = poll_size(b, arch);
    (
        emit::nops(emit::padding(arch, start + (poll + compare))),
        match b.poll_cost {
            Some(cost) => emit::poll_code(arch, cost, compare + unit_size(arch)),
            None => Seq::empty(),
        },
        b.own_compare(arch),
        emit::trap_unit(arch),
        emit::nops(
            if b.compare is None {
                0
            } else {
                unit_size(arch) - compare
            },
        ),
    )
}

proof fn lemma_exit_splits(b: Boundary, isa: TargetIsa, start: int, l: PReg, r: PReg)
    requires
        b.charge is None,
        b.exit,
        !b.check,
        b.poll_cost matches Some(cost) ==> cost <= 2048,
        compare_registers(b, isa.arch, l, r),
    ensures
        ({
            let (pad, front, piece, trap, gap) = exit_parts(b, isa, start);
            let lead = poll_size(b, isa.arch) + compare_size(b, isa.arch);
            &&& b.map_offset(isa, start) == start + emit::padding(isa.arch, start + lead) + lead
            &&& b.code(isa, start) == pad + (front + piece) + trap + (if b.poll_cost is None {
                Seq::empty()
            } else {
                piece + gap + trap
            })
        }),
{
    lemma_exit_sizes(b, isa, l, r);
    let (pad, front, piece, trap, gap) = exit_parts(b, isa, start);
    assert(b.lead(isa.arch) == front + piece);
    assert(front.len() == poll_size(b, isa.arch));
}

/// An exit, emitted at `start`, reads as one around the offset of its map. Its patch
/// unit is aligned there, as long as AArch64 code starts at a whole word.
pub proof fn lemma_exit_reads_as_one(
    b: Boundary,
    isa: TargetIsa,
    start: int,
    l: PReg,
    r: PReg,
)
    requires
        b.charge is None,
        b.exit,
        !b.check,
        b.poll_cost matches Some(cost) ==> cost <= 2048,
        compare_registers(b, isa.arch, l, r),
        start >= 0,
    ensures
        reads_as_exit(
            b,
            isa.arch,
            b.code(isa, start),
            b.map_offset(isa, start) - start,
            l,
            r,
        ),
        isa.arch == Arch::X64 || start % 4 == 0 ==> b.map_offset(isa, start) % unit_size(isa.arch)
            == 0,
        b.poll_distance(isa.arch.patch_width()) == unit_size(isa.arch) * (if b.compare is None {
            1int
        } else {
            2
        }),
{
    let arch = isa.arch;
    let (pad, front, piece, trap, gap) = exit_parts(b, isa, start);
    let code = b.code(isa, start);
    let (compare, poll, unit) = (compare_size(b, arch), poll_size(b, arch), unit_size(arch));
    lemma_exit_sizes(b, isa, l, r);
    lemma_exit_splits(b, isa, start, l, r);
    lemma_exit_parts(pad, front, piece, trap, gap);
    lemma_padding(arch, start, poll + compare);
    let lead = emit::padding(arch, start + (poll + compare));
    let hot = b.map_offset(isa, start) - start;
    assert(pad.len() == lead && front.len() == poll && piece.len() == compare);
    assert(hot == lead + poll + compare);
    lemma_nops_stand(code, 0, lead);
    lemma_trap_stands(arch, code, hot);
    lemma_compare_part(b, arch, code, hot - compare, l, r);
    if let Some(cost) = b.poll_cost {
        lemma_poll_stands(arch, code, lead, cost, compare + unit);
        lemma_compare_part(b, arch, code, hot + unit, l, r);
        lemma_nops_stand(code, hot + unit + compare, gap.len() as int);
        lemma_trap_stands(arch, code, hot + unit + compare + gap.len());
    }
}

proof fn lemma_compare_part(
    b: Boundary,
    arch: Arch,
    code: Seq<u8>,
    at: int,
    l: PReg,
    r: PReg,
)
    requires
        compare_registers(b, arch, l, r),
        stands(code, at, b.own_compare(arch)),
    ensures
        b.compare matches Some(c) ==> compares(
            arch,
            code,
            at,
            l.index as int % 64,
            r.index as int % 64,
            b.values@[c.lhs as int].1 == Type::I64,
        ),
{
    if let Some(c) = b.compare {
        lemma_compare_stands(
            arch,
            code,
            at,
            l.index as int % 64,
            r.index as int % 64,
            b.values@[c.lhs as int].1,
        );
    }
}

/// The map that is recorded for an exit, held against its code. A unit stands at
/// the map's offset, and the other one at the deadline's. The poll right before the
/// comparison subtracts exactly the work that the map reports as completed.
pub proof fn lemma_exit_map_and_code_agree(
    b: Boundary,
    isa: TargetIsa,
    frame: FrameLayout,
    start: int,
    map: StateMap,
    l: PReg,
    r: PReg,
)
    requires
        b.charge is None,
        b.exit,
        !b.check,
        b.poll_cost matches Some(cost) ==> cost <= 2048,
        compare_registers(b, isa.arch, l, r),
        start >= 0,
        start + b.code(isa, start).len() <= u32::MAX,
        b.is_state_map(map, frame, b.map_offset(isa, start), isa.arch.patch_width()),
    ensures
        ({
            let code = b.code(isa, start);
            let unit = unit_size(isa.arch);
            let compare = compare_size(b, isa.arch);
            let hot = map.offset - start;
            &&& map.patch_bytes == unit
            &&& isa.arch == Arch::X64 || start % 4 == 0 ==> map.offset as int % unit == 0
            &&& traps(isa.arch, code, hot)
            &&& map.poll is Some <==> b.poll_cost is Some
            &&& map.poll matches Some(poll) ==> {
                &&& Some(poll.completed) == b.poll_cost
                &&& isa.arch == Arch::X64 || start % 4 == 0 ==> poll.offset as int % unit == 0
                &&& traps(isa.arch, code, poll.offset - start)
                &&& poll.offset + unit == start + code.len()
                &&& isa.arch == Arch::X64 ==> polls_x64(
                    code,
                    hot - compare - 9,
                    poll.completed as int,
                    compare + unit,
                )
                &&& isa.arch == Arch::AArch64 ==> polls_aarch64(
                    code,
                    hot - compare - 8,
                    poll.completed as int,
                    compare + unit,
                )
            }
        }),
{
    lemma_exit_reads_as_one(b, isa, start, l, r);
}

/// A check, emitted at `start`, tests the budget and branches over a patch unit,
/// which ends the code, exactly if there is budget left.
pub proof fn lemma_check_reads_as_one(b: Boundary, isa: TargetIsa, start: int)
    requires
        b.charge is None,
        b.check,
        start >= 0,
    ensures
        ({
            let code = b.code(isa, start);
            let hot = b.map_offset(isa, start) - start;
            let unit = unit_size(isa.arch);
            &&& isa.arch == Arch::X64 || start % 4 == 0 ==> b.map_offset(isa, start) % unit == 0
            &&& code.len() == hot + unit
            &&& traps(isa.arch, code, hot)
            &&& isa.arch == Arch::X64 ==> {
                &&& 5 <= hot < 13
                &&& only_nops(code, 0, hot - 5)
                &&& code[hot - 5] == 0x4d && code[hot - 4] == 0x85 && code[hot - 3] == 0xf6
                &&& code[hot - 2] == 0x7f && code[hot - 1] == unit
            }
            &&& isa.arch == Arch::AArch64 ==> {
                let test = word_at(code, 0);
                let branch = word_at(code, 4);
                &&& hot == 8
                &&& test / 0x40_0000 == 0x3c4 && test / 0x400 % 0x1000 == 0
                &&& test / 0x20 % 0x20 == 20 && test % 0x20 == 31
                &&& branch / 0x100_0000 == 0x54 && branch % 0x20 == 0xc
                &&& 4 + branch / 0x20 % 0x8_0000 * 4 == hot + unit
            }
        }),
{
    let arch = isa.arch;
    let code = b.code(isa, start);
    let hot = b.map_offset(isa, start) - start;
    let piece = emit::check_code(arch);
    lemma_trap_unit(arch);
    assert(code.subrange(hot, hot + unit_size(arch)) =~= emit::trap_unit(arch));
    lemma_trap_stands(arch, code, hot);
    assert(code.subrange(hot - piece.len(), hot) =~= piece);
    match arch {
        Arch::X64 => {
            lemma_byte_stands(code, hot - 5, piece, 0);
            lemma_byte_stands(code, hot - 5, piece, 1);
            lemma_byte_stands(code, hot - 5, piece, 2);
            lemma_byte_stands(code, hot - 5, piece, 3);
            lemma_byte_stands(code, hot - 5, piece, 4);
        },
        Arch::AArch64 => {
            assert(piece.subrange(0, 4) =~= bytes::le32(0xf100_029f));
            assert(piece.subrange(4, 8) =~= bytes::le32(0x5400_004c));
            lemma_word_stands(piece, 0, 0xf100_029f);
            lemma_word_stands(piece, 4, 0x5400_004c);
            lemma_inner_word_stands(code, 0, piece, 0);
            lemma_inner_word_stands(code, 0, piece, 4);
        },
    }
}

/// A marker has no code. An entry has none either, or a landing where the target
/// wants one. Both are mapped where they start. A charge is just the subtraction.
pub proof fn lemma_other_boundaries_read(b: Boundary, isa: TargetIsa, start: int)
    ensures
        b.charge matches Some(cost) ==> b.code(isa, start) == emit::charge_code(isa.arch, cost),
        b.charge is None && !b.exit && !b.check ==> {
            &&& b.map_offset(isa, start) == start
            &&& b.code(isa, start) == (if b.entry && isa.landings {
                emit::landing_code(isa.arch)
            } else {
                Seq::<u8>::empty()
            })
        },
{
}

/// What is asked of a boundary before it is emitted. Its operands are placed, only an
/// exit that is no check has a cost or a comparison, a cost is at most 2048, and what
/// is compared is in registers that an instruction of the target can name.
pub proof fn lemma_emission_conditions(b: Boundary, isa: TargetIsa, frame: FrameLayout)
    ensures
        b.emittable(isa, frame) <==> {
            &&& b.placed(frame)
            &&& b.poll_cost is Some ==> b.exit && !b.check && b.poll_cost->Some_0 <= 2048
            &&& b.charge is Some ==> b.charge->Some_0 <= 2048
            &&& b.compare matches Some(c) ==> {
                &&& b.exit && !b.check
                &&& c.lhs < b.values@.len() && c.rhs < b.values@.len()
                &&& exists|l: PReg, r: PReg| #[trigger] compare_registers(b, isa.arch, l, r)
            }
        },
{
    if let Some(c) = b.compare {
        if b.comparable() {
            let l = b.values@[c.lhs as int].0->Register_0->Real_0;
            let r = b.values@[c.rhs as int].0->Register_0->Real_0;
            if b.real_encoding(c.lhs) < isa.arch.bank_size() && b.real_encoding(c.rhs)
                < isa.arch.bank_size() {
                assert(compare_registers(b, isa.arch, l, r));
            }
        }
    }
}

} // verus!
