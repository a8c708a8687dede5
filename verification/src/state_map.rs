//! What is known of a boundary once its operands are placed.

use vstd::prelude::*;

use crate::types::Type;

verus! {

/// Constraint on one simultaneous entry result. Unused results are still
/// reported as `Location::Unused`. Register numbers use hardware encodings.
/// Spill offsets are chosen by allocation and reported in the final entry map;
/// requesting a particular spill slot (or forcing a spill) is not supported.
#[derive(Clone, Copy, Debug, PartialEq, Eq, Hash, Structural)]
pub enum EntryConstraint {
    /// Let allocation choose a register or frame slot.
    Any,
    /// Require this physical register at ingress.
    Register {
        /// Architectural register encoding.
        index: u8,
        /// True for the SIMD/FP bank; false for integer registers.
        vector: bool,
    },
}

/// The decimal digits of a number.
pub open spec fn decimal(n: nat) -> Seq<char>
    decreases n,
{
    let digit = ('0' as int + n % 10) as char;
    if n < 10 {
        seq![digit]
    } else {
        decimal(n / 10).push(digit)
    }
}

/// Appends one decimal digit.
fn put_digit(text: &mut String, digit: u8)
    requires
        digit < 10,
    ensures
        final(text)@ == old(text)@.push(('0' as int + digit) as char),
{
    proof {
        reveal_strlit("0");
        reveal_strlit("1");
        reveal_strlit("2");
        reveal_strlit("3");
        reveal_strlit("4");
        reveal_strlit("5");
        reveal_strlit("6");
        reveal_strlit("7");
        reveal_strlit("8");
        reveal_strlit("9");
    }
    text.append(
        match digit {
            0 => "0",
            1 => "1",
            2 => "2",
            3 => "3",
            4 => "4",
            5 => "5",
            6 => "6",
            7 => "7",
            8 => "8",
            _ => "9",
        },
    );
    assert(text@ =~= old(text)@.push(('0' as int + digit) as char));
}

/// Appends a number in decimal.
fn put_decimal(text: &mut String, n: u8)
    ensures
        final(text)@ == old(text)@ + decimal(n as nat),
{
    proof {
        reveal_with_fuel(decimal, 3);
    }
    if n >= 100 {
        put_digit(text, n / 100);
    }
    if n >= 10 {
        put_digit(text, n / 10 % 10);
    }
    put_digit(text, n % 10);
    assert(text@ =~= old(text)@ + decimal(n as nat));
}

impl EntryConstraint {
    /// The words of the constraint: `any`, or the bank and the number of the
    /// register.
    pub open spec fn words(self) -> Seq<char> {
        match self {
            EntryConstraint::Any => "any"@,
            EntryConstraint::Register { index, vector } => (if vector {
                "vector "@
            } else {
                "integer "@
            }) + decimal(index as nat),
        }
    }

    /// The words of the constraint.
    pub fn to_text(&self) -> (text: String)
        ensures
            text@ == self.words(),
    {
        let mut text = String::new();
        match *self {
            EntryConstraint::Any => {
                text.append("any");
                assert(text@ =~= "any"@);
            },
            EntryConstraint::Register { index, vector } => {
                text.append(
                    if vector {
                        "vector "
                    } else {
                        "integer "
                    },
                );
                put_decimal(&mut text, index);
                assert(text@ =~= self.words());
            },
        }
        text
    }
}

proof fn lemma_decimal_names_number(m: nat, n: nat)
    requires
        decimal(m) == decimal(n),
    ensures
        m == n,
    decreases m,
{
    lemma_decimal_len(m);
    lemma_decimal_len(n);
    assert(decimal(m).last() == ('0' as int + m % 10) as char);
    assert(decimal(n).last() == ('0' as int + n % 10) as char);
    assert(m % 10 == n % 10);
    if m >= 10 && n >= 10 {
        assert(decimal(m).drop_last() =~= decimal(m / 10));
        assert(decimal(n).drop_last() =~= decimal(n / 10));
        lemma_decimal_names_number(m / 10, n / 10);
    }
}

proof fn lemma_decimal_len(n: nat)
    ensures
        decimal(n).len() > 0,
        n >= 10 ==> decimal(n).len() > 1,
    decreases n,
{
    if n >= 10 {
        lemma_decimal_len(n / 10);
    }
}

proof fn lemma_first_letter(constraint: EntryConstraint)
    ensures
        constraint.words()[0] == (match constraint {
            EntryConstraint::Any => 'a',
            EntryConstraint::Register { vector: true, .. } => 'v',
            EntryConstraint::Register { vector: false, .. } => 'i',
        }),
{
    reveal_strlit("any");
    reveal_strlit("vector ");
    reveal_strlit("integer ");
    assert("any"@[0] == 'a' && "vector "@[0] == 'v' && "integer "@[0] == 'i');
}

/// Different constraints have different words.
pub proof fn lemma_words_name_constraint(a: EntryConstraint, b: EntryConstraint)
    requires
        a.words() == b.words(),
    ensures
        a == b,
{
    reveal_strlit("vector ");
    reveal_strlit("integer ");
    lemma_first_letter(a);
    lemma_first_letter(b);
    if let EntryConstraint::Register { index: i, vector } = a {
        if let EntryConstraint::Register { index: j, vector: other } = b {
            assert(vector == other);
            let skip: int = if vector {
                7
            } else {
                8
            };
            assert(a.words().skip(skip) =~= decimal(i as nat));
            assert(b.words().skip(skip) =~= decimal(j as nat));
            lemma_decimal_names_number(i as nat, j as nat);
        }
    }
}

/// A final location at a boundary. Spill offsets include the transfer partition
/// and explicit stack slots; they are relative to the native frame.
#[derive(Clone, Copy, Debug, PartialEq, Eq)]
pub enum Location {
    /// An entry result that nothing uses; transfer nothing. Exit and observation
    /// operands never have this location.
    Unused,
    /// Exact low/high 64-bit words of a literal. No allocation is required.
    /// This is a use-only location; entry definitions cannot be constants.
    Constant([u64; 2]),
    /// Architectural register number and register bank.
    Register {
        /// Architectural register encoding.
        index: u8,
        /// True for the SIMD/FP register bank.
        vector: bool,
    },
    /// Absolute byte offset from the pinned native frame pointer.
    Spill {
        /// Byte offset from the native frame, not from the stack pointer.
        offset: u32,
    },
}

/// A typed operand, in the caller-supplied order.
#[derive(Clone, Copy, Debug, PartialEq, Eq)]
pub struct LocatedValue {
    /// Type of the operand.
    pub ty: Type,
    /// Location after final allocation.
    pub location: Location,
}

/// A terminal's already-charged deadline path. Both patches share the same
/// physical operands. Resumption must use the hot patch, not repeat the charge.
#[derive(Clone, Copy, Debug, PartialEq, Eq, Structural)]
pub struct PollCheckpoint {
    /// Offset of the deadline exit patch, with the enclosing map's patch width.
    pub offset: u32,
    /// Work subtracted once before either patch; zero for already charged work.
    pub completed: u16,
}

/// Establish subtraction flags at an exit, not an ambient flag-liveness claim.
/// Both arguments must have the same I32 or I64 type. Their registers are
/// allocation-visible uses of the terminal; neither is modified by the compare.
#[derive(Clone, Copy, Debug, PartialEq, Eq, Hash, Structural)]
pub struct ExitCompare {
    /// Minuend boundary argument index.
    pub lhs: usize,
    /// Subtrahend boundary argument index.
    pub rhs: usize,
}

/// Final state at an exact native offset, after all preceding allocator edits.
/// A state marker describes only its own point. Fault maps instead describe the
/// actual faulting instruction, preserving operands through compound operations.
#[derive(Clone, Debug, PartialEq, Eq)]
pub struct StateMap {
    /// Opaque caller-supplied boundary identity.
    pub id: u64,
    /// Byte offset from the start of the compiled unit.
    pub offset: u32,
    /// True when values are simultaneous fast-entry definitions, not uses.
    pub entry: bool,
    /// Zero for a marker; 8 (x86-64) or 4 (AArch64) for an exit/check patch.
    pub patch_bytes: u8,
    /// Exact native instruction length for a fault map; zero for other maps.
    pub fault_bytes: u8,
    /// Optional deadline patch after an inline budget subtraction/branch.
    /// Mapped values survive; only `subtract_flags` guarantees host flags.
    pub poll: Option<PollCheckpoint>,
    /// The terminal establishes all host integer subtraction condition flags
    /// at both patches. x86 CF is borrow; AArch64 C is not-borrow. No claim is
    /// made about flags at entry, ordinary markers or fault instructions.
    pub subtract_flags: bool,
    /// Allocations in the same order as the boundary arguments.
    pub values: Vec<LocatedValue>,
}

} // verus!
