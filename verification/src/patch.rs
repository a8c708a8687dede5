//! Installing direct branches at the patch units that a map exports.

use vstd::prelude::*;

use crate::bytes;
use crate::bytes::{put_le32, write_window};
use crate::error::{unsupported, CodegenError, CodegenResult};
use crate::state_map::StateMap;

verus! {

/// Why a branch cannot be installed.
#[derive(Clone, Copy, Debug, PartialEq, Eq, Structural)]
pub enum PatchFault {
    /// The executable address of the patch unit does not fit in 64 bits.
    AddressOverflow,
    /// The end of the patch unit is not addressable.
    OffsetOverflow,
    /// The patch unit does not lie inside the code.
    OutsideCode,
    /// An x86-64 unit is not aligned to its own size.
    UnalignedX64,
    /// The target is out of reach of an x86-64 branch.
    FarX64,
    /// An AArch64 unit or its target is not aligned to an instruction.
    UnalignedAArch64,
    /// The target is out of reach of an AArch64 branch.
    FarAArch64,
    /// The map has no patch unit.
    NotAnExit,
}

impl PatchFault {
    /// The words of the fault.
    pub open spec fn detail(self) -> Seq<char> {
        match self {
            PatchFault::AddressOverflow => "address overflow"@,
            PatchFault::OffsetOverflow => "offset overflow"@,
            PatchFault::OutsideCode => "patch outside code"@,
            PatchFault::UnalignedX64 => "unaligned x86-64 patch"@,
            PatchFault::FarX64 => "x86-64 target requires an island"@,
            PatchFault::UnalignedAArch64 => "unaligned AArch64 branch"@,
            PatchFault::FarAArch64 => "AArch64 target requires an island"@,
            PatchFault::NotAnExit => "not an exit patch"@,
        }
    }

    /// The error that reports the fault.
    fn error(self) -> (error: CodegenError)
        ensures
            error.text() == "Nixe exit patch: "@ + self.detail(),
    {
        let detail = match self {
            PatchFault::AddressOverflow => "address overflow",
            PatchFault::OffsetOverflow => "offset overflow",
            PatchFault::OutsideCode => "patch outside code",
            PatchFault::UnalignedX64 => "unaligned x86-64 patch",
            PatchFault::FarX64 => "x86-64 target requires an island",
            PatchFault::UnalignedAArch64 => "unaligned AArch64 branch",
            PatchFault::FarAArch64 => "AArch64 target requires an island",
            PatchFault::NotAnExit => "not an exit patch",
        };
        unsupported("Nixe exit patch: ", detail)
    }
}

/// The 32-bit two's complement word of a displacement.
pub open spec fn displacement_word(delta: int) -> u32 {
    (delta % 0x1_0000_0000) as u32
}

/// `jmp rel32` over `delta` bytes from its end, padded to eight bytes by `nop`.
pub open spec fn x64_branch(delta: int) -> Seq<u8> {
    seq![0xe9u8] + bytes::le32(displacement_word(delta)) + seq![0x90u8, 0x90u8, 0x90u8]
}

/// `b` over `delta` bytes from its own address; `delta` is a multiple of four.
pub open spec fn aarch64_branch(delta: int) -> Seq<u8> {
    bytes::le32((0x1400_0000 + delta / 4 % 0x400_0000) as u32)
}

/// The x86-64 unit at `address` that branches to `target`.
pub open spec fn x64_window(address: int, target: u64) -> Result<Seq<u8>, PatchFault> {
    let delta = target - (address + 5);
    if address % 8 != 0 {
        Err(PatchFault::UnalignedX64)
    } else if !(i32::MIN <= delta <= i32::MAX) {
        Err(PatchFault::FarX64)
    } else {
        Ok(x64_branch(delta))
    }
}

/// The AArch64 unit at `address` that branches to `target`.
pub open spec fn aarch64_window(address: int, target: u64) -> Result<Seq<u8>, PatchFault> {
    let delta = target - address;
    if address % 4 != 0 || target % 4 != 0 {
        Err(PatchFault::UnalignedAArch64)
    } else if !(-0x800_0000 <= delta < 0x800_0000) {
        Err(PatchFault::FarAArch64)
    } else {
        Ok(aarch64_branch(delta))
    }
}

/// What installing a branch to `target` amounts to, for a patch unit of
/// `width` bytes at `offset` of `len` bytes of code that will run at `base`:
/// the bytes of the unit, or the fault that forbids it.
pub open spec fn branch_window(
    offset: u32,
    width: u8,
    len: nat,
    base: u64,
    target: u64,
) -> Result<Seq<u8>, PatchFault> {
    let address = base + offset;
    if address > u64::MAX {
        Err(PatchFault::AddressOverflow)
    } else if offset + width > usize::MAX {
        Err(PatchFault::OffsetOverflow)
    } else if offset + width > len {
        Err(PatchFault::OutsideCode)
    } else if width == 8 {
        x64_window(address, target)
    } else if width == 4 {
        aarch64_window(address, target)
    } else {
        Err(PatchFault::NotAnExit)
    }
}

/// `result` and `after` are what installing the branch on `before` must give.
pub open spec fn branch_installed(
    offset: u32,
    width: u8,
    before: Seq<u8>,
    after: Seq<u8>,
    base: u64,
    target: u64,
    result: CodegenResult<()>,
) -> bool {
    match branch_window(offset, width, before.len(), base, target) {
        Ok(window) => result is Ok && after == bytes::splice(before, offset as int, window),
        Err(fault) => {
            &&& result is Err
            &&& result->Err_0.text() == "Nixe exit patch: "@ + fault.detail()
            &&& after == before
        },
    }
}

/// Where control goes from the branch in a patch unit at `address`.
#[verifier::opaque]
pub open spec fn branch_target(window: Seq<u8>, address: int) -> int {
    if window.len() == 8 {
        address + 5 + bytes::signed32(bytes::from_le32(window.subrange(1, 5)))
    } else {
        let field = bytes::from_le32(window) % 0x400_0000;
        address + 4 * (if field < 0x200_0000 {
            field as int
        } else {
            field - 0x400_0000
        })
    }
}

/// `unit` holds what `window` says.
spec fn is_unit(unit: Result<Vec<u8>, PatchFault>, window: Result<Seq<u8>, PatchFault>) -> bool {
    match window {
        Ok(bytes) => unit is Ok && unit->Ok_0@ == bytes,
        Err(fault) => unit is Err && unit->Err_0 == fault,
    }
}

fn x64_unit(address: u64, target: u64) -> (unit: Result<Vec<u8>, PatchFault>)
    ensures
        is_unit(unit, x64_window(address as int, target)),
        unit is Ok ==> unit->Ok_0@.len() == 8,
{
    if address % 8 != 0 {
        return Err(PatchFault::UnalignedX64);
    }
    let delta: i128 = target as i128 - (address as i128 + 5);
    if delta < i32::MIN as i128 || delta > i32::MAX as i128 {
        return Err(PatchFault::FarX64);
    }
    let word: u32 = if delta < 0 {
        (delta + 0x1_0000_0000) as u32
    } else {
        delta as u32
    };
    let mut window: Vec<u8> = Vec::new();
    window.push(0xe9);
    put_le32(&mut window, word);
    window.push(0x90);
    window.push(0x90);
    window.push(0x90);
    assert(window@ =~= x64_branch(delta as int));
    Ok(window)
}

proof fn lemma_branch_field(address: int, target: int)
    requires
        address % 4 == 0,
        target % 4 == 0,
        -0x800_0000 <= target - address < 0x800_0000,
    ensures
        (target - address) / 4 % 0x400_0000 == (if target < address {
            0x400_0000 - (address - target) / 4
        } else {
            (target - address) / 4
        }),
{
}

fn aarch64_unit(address: u64, target: u64) -> (unit: Result<Vec<u8>, PatchFault>)
    ensures
        is_unit(unit, aarch64_window(address as int, target)),
        unit is Ok ==> unit->Ok_0@.len() == 4,
{
    if address % 4 != 0 || target % 4 != 0 {
        return Err(PatchFault::UnalignedAArch64);
    }
    let delta: i128 = target as i128 - address as i128;
    if delta < -0x800_0000 || delta >= 0x800_0000 {
        return Err(PatchFault::FarAArch64);
    }
    let field: u32 = if target < address {
        0x400_0000 - ((address - target) / 4) as u32
    } else {
        ((target - address) / 4) as u32
    };
    proof {
        lemma_branch_field(address as int, target as int);
    }
    let mut window: Vec<u8> = Vec::new();
    put_le32(&mut window, 0x1400_0000 + field);
    assert(window@ =~= bytes::le32((0x1400_0000 + field) as u32));
    Ok(window)
}

impl StateMap {
    /// Install an in-range direct branch in caller-owned, unpublished bytes.
    /// `base` is the eventual executable address of `code[0]`. For live code,
    /// the owner must first establish its maintenance rendezvous and writable
    /// mapping; this function provides neither synchronization nor W^X changes.
    /// Out-of-range targets require an owner-provided local island.
    pub fn patch_exit(&self, code: &mut [u8], base: u64, target: u64) -> (result: CodegenResult<()>)
        ensures
            branch_installed(
                self.offset,
                self.patch_bytes,
                old(code)@,
                final(code)@,
                base,
                target,
                result,
            ),
    {
        self.patch_at(self.offset, code, base, target)
    }

    /// Install the cold deadline target in unpublished bytes. The target sees
    /// an already-charged counter and the same operands as the normal exit.
    pub fn patch_poll(&self, code: &mut [u8], base: u64, target: u64) -> (result: CodegenResult<()>)
        ensures
            match self.poll {
                Some(poll) => branch_installed(
                    poll.offset,
                    self.patch_bytes,
                    old(code)@,
                    final(code)@,
                    base,
                    target,
                    result,
                ),
                None => {
                    &&& result is Err
                    &&& result->Err_0.text() == "Nixe exit has no poll checkpoint"@
                    &&& final(code)@ == old(code)@
                },
            },
    {
        match self.poll {
            Some(poll) => self.patch_at(poll.offset, code, base, target),
            None => {
                let error = unsupported("", "Nixe exit has no poll checkpoint");
                proof {
                    reveal_strlit("");
                    assert(""@ + "Nixe exit has no poll checkpoint"@
                        =~= "Nixe exit has no poll checkpoint"@);
                }
                Err(error)
            },
        }
    }

    /// Install a branch at the patch unit that starts at `offset`, as wide as the
    /// map's units are.
    pub fn patch_at(&self, offset: u32, code: &mut [u8], base: u64, target: u64) -> (result:
        CodegenResult<()>)
        ensures
            branch_installed(
                offset,
                self.patch_bytes,
                old(code)@,
                final(code)@,
                base,
                target,
                result,
            ),
    {
        let address = match base.checked_add(offset as u64) {
            Some(address) => address,
            None => return Err(PatchFault::AddressOverflow.error()),
        };
        let start = offset as usize;
        let end = match start.checked_add(self.patch_bytes as usize) {
            Some(end) => end,
            None => return Err(PatchFault::OffsetOverflow.error()),
        };
        if end > code.len() {
            return Err(PatchFault::OutsideCode.error());
        }
        let unit = if self.patch_bytes == 8 {
            x64_unit(address, target)
        } else if self.patch_bytes == 4 {
            aarch64_unit(address, target)
        } else {
            Err(PatchFault::NotAnExit)
        };
        match unit {
            Ok(window) => {
                write_window(code, start, window.as_slice());
                Ok(())
            },
            Err(fault) => Err(fault.error()),
        }
    }
}

proof fn lemma_x64_branch_target(delta: int, address: int)
    requires
        i32::MIN <= delta <= i32::MAX,
    ensures
        x64_branch(delta).len() == 8,
        branch_target(x64_branch(delta), address) == address + 5 + delta,
{
    reveal(branch_target);
    let word = displacement_word(delta);
    assert(x64_branch(delta).len() == 8);
    assert(x64_branch(delta).subrange(1, 5) =~= bytes::le32(word));
    bytes::lemma_le32_roundtrip(word);
    assert(bytes::signed32(word) == delta);
}

proof fn lemma_aarch64_branch_target(delta: int, address: int)
    requires
        delta % 4 == 0,
        -0x800_0000 <= delta < 0x800_0000,
    ensures
        aarch64_branch(delta).len() == 4,
        branch_target(aarch64_branch(delta), address) == address + delta,
{
    reveal(branch_target);
    let field = delta / 4 % 0x400_0000;
    let word = (0x1400_0000 + field) as u32;
    bytes::lemma_le32_roundtrip(word);
    assert(word % 0x400_0000 == field);
}

proof fn lemma_x64_window_target(address: int, target: u64)
    requires
        x64_window(address, target) is Ok,
    ensures
        x64_window(address, target)->Ok_0.len() == 8,
        branch_target(x64_window(address, target)->Ok_0, address) == target,
{
    lemma_x64_branch_target(target - (address + 5), address);
}

proof fn lemma_aarch64_window_target(address: int, target: u64)
    requires
        aarch64_window(address, target) is Ok,
    ensures
        aarch64_window(address, target)->Ok_0.len() == 4,
        branch_target(aarch64_window(address, target)->Ok_0, address) == target,
{
    let delta = target - address;
    assert(delta % 4 == 0) by {
        assert(address % 4 == 0 && target as int % 4 == 0);
    }
    lemma_aarch64_branch_target(delta, address);
}

/// A branch that was installed goes to the target it was installed for.
pub proof fn lemma_installed_branch_reaches_target(
    offset: u32,
    width: u8,
    len: nat,
    base: u64,
    target: u64,
)
    requires
        branch_window(offset, width, len, base, target) is Ok,
    ensures
        branch_target(
            branch_window(offset, width, len, base, target)->Ok_0,
            base + offset,
        ) == target,
        branch_window(offset, width, len, base, target)->Ok_0.len() == width,
{
    let address = base + offset;
    if width == 8 {
        assert(branch_window(offset, width, len, base, target) == x64_window(address, target));
        lemma_x64_window_target(address, target);
    } else {
        assert(branch_window(offset, width, len, base, target) == aarch64_window(address, target));
        lemma_aarch64_window_target(address, target);
    }
}

proof fn lemma_moved_x64_window(address: int, target: u64, k: int, moved_target: u64)
    requires
        k % 8 == 0,
        moved_target == target + k,
    ensures
        x64_window(address + k, moved_target) == x64_window(address, target),
{
    assert((address + k) % 8 == address % 8) by (nonlinear_arith)
        requires
            k % 8 == 0,
    ;
    assert(moved_target - (address + k + 5) == target - (address + 5));
}

proof fn lemma_moved_aarch64_window(address: int, target: u64, k: int, moved_target: u64)
    requires
        k % 8 == 0,
        moved_target == target + k,
    ensures
        aarch64_window(address + k, moved_target) == aarch64_window(address, target),
{
    assert((address + k) % 4 == address % 4) by (nonlinear_arith)
        requires
            k % 8 == 0,
    ;
    let (from, to) = (target as int, moved_target as int);
    assert(to % 4 == from % 4) by (nonlinear_arith)
        requires
            k % 8 == 0,
            to == from + k,
    ;
    assert(moved_target - (address + k) == target - address);
}

/// Only the distance from a unit to its target shows in its branch: moving the
/// code and the target together by a multiple of eight changes neither the bytes
/// nor the fault.
pub proof fn lemma_moved_branch_is_the_same(
    offset: u32,
    width: u8,
    len: nat,
    base: u64,
    target: u64,
    moved_base: u64,
    moved_target: u64,
)
    requires
        moved_base - base == moved_target - target,
        (moved_base - base) % 8 == 0,
        base + offset <= u64::MAX,
        moved_base + offset <= u64::MAX,
    ensures
        branch_window(offset, width, len, moved_base, moved_target) == branch_window(
            offset,
            width,
            len,
            base,
            target,
        ),
{
    let k = moved_base - base;
    let address = base + offset;
    assert(moved_base + offset == address + k);
    lemma_moved_x64_window(address, target, k, moved_target);
    lemma_moved_aarch64_window(address, target, k, moved_target);
}

/// Patching code at one place and the same code moved together with its target by
/// a multiple of eight has the same outcome and leaves the same bytes.
pub proof fn lemma_moved_code_is_patched_alike(
    offset: u32,
    width: u8,
    before: Seq<u8>,
    after: Seq<u8>,
    moved_after: Seq<u8>,
    base: u64,
    target: u64,
    moved_base: u64,
    moved_target: u64,
    result: CodegenResult<()>,
    moved_result: CodegenResult<()>,
)
    requires
        moved_base - base == moved_target - target,
        (moved_base - base) % 8 == 0,
        base + offset <= u64::MAX,
        moved_base + offset <= u64::MAX,
        branch_installed(offset, width, before, after, base, target, result),
        branch_installed(
            offset,
            width,
            before,
            moved_after,
            moved_base,
            moved_target,
            moved_result,
        ),
    ensures
        moved_after == after,
        moved_result is Ok <==> result is Ok,
        result is Err ==> moved_result->Err_0.text() == result->Err_0.text(),
{
    lemma_moved_branch_is_the_same(
        offset,
        width,
        before.len(),
        base,
        target,
        moved_base,
        moved_target,
    );
}

/// The last patch of a unit wins: nothing of an earlier one shows through. A
/// second patch that equals the first changes nothing.
pub proof fn lemma_last_patch_wins(
    offset: u32,
    width: u8,
    before: Seq<u8>,
    middle: Seq<u8>,
    after: Seq<u8>,
    first_base: u64,
    first_target: u64,
    first: CodegenResult<()>,
    last_base: u64,
    last_target: u64,
    last: CodegenResult<()>,
)
    requires
        branch_installed(offset, width, before, middle, first_base, first_target, first),
        first is Ok,
        branch_installed(offset, width, middle, after, last_base, last_target, last),
        last is Ok,
    ensures
        branch_installed(offset, width, before, after, last_base, last_target, last),
        last_base == first_base && last_target == first_target ==> after == middle,
{
    let len = before.len();
    lemma_installed_branch_reaches_target(offset, width, len, first_base, first_target);
    lemma_installed_branch_reaches_target(offset, width, len, last_base, last_target);
    let early = branch_window(offset, width, len, first_base, first_target)->Ok_0;
    let late = branch_window(offset, width, len, last_base, last_target)->Ok_0;
    bytes::lemma_last_window_wins(before, offset as int, early, late);
}

} // verus!
