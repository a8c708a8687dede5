//! Little-endian words and windows of a byte sequence.

use vstd::prelude::*;

verus! {

/// The four bytes of a 32-bit word, least significant first.
pub open spec fn le32(word: u32) -> Seq<u8> {
    seq![
        (word % 256) as u8,
        (word / 256 % 256) as u8,
        (word / 65536 % 256) as u8,
        (word / 16777216) as u8,
    ]
}

/// The 32-bit word that four little-endian bytes hold.
pub open spec fn from_le32(bytes: Seq<u8>) -> u32
    recommends
        bytes.len() == 4,
{
    (bytes[0] + bytes[1] * 256 + bytes[2] * 65536 + bytes[3] * 16777216) as u32
}

/// The value of a 32-bit word read as a two's complement number.
pub open spec fn signed32(word: u32) -> int {
    if word < 0x8000_0000 {
        word as int
    } else {
        word - 0x1_0000_0000
    }
}

/// `code` with the bytes from `start` on replaced by `window`.
pub open spec fn splice(code: Seq<u8>, start: int, window: Seq<u8>) -> Seq<u8> {
    Seq::new(
        code.len(),
        |i: int|
            if start <= i < start + window.len() {
                window[i - start]
            } else {
                code[i]
            },
    )
}

/// Reading a written word gives it back.
pub proof fn lemma_le32_roundtrip(word: u32)
    ensures
        from_le32(le32(word)) == word,
{
}

/// Of two windows of the same size at the same place, the last one wins.
pub proof fn lemma_last_window_wins(code: Seq<u8>, start: int, first: Seq<u8>, last: Seq<u8>)
    requires
        first.len() == last.len(),
    ensures
        splice(splice(code, start, first), start, last) == splice(code, start, last),
{
    assert(splice(splice(code, start, first), start, last) =~= splice(code, start, last));
}

/// Windows that do not overlap can be written in either order.
pub proof fn lemma_apart_windows_commute(
    code: Seq<u8>,
    start: int,
    window: Seq<u8>,
    other_start: int,
    other: Seq<u8>,
)
    requires
        start + window.len() <= other_start || other_start + other.len() <= start,
    ensures
        splice(splice(code, start, window), other_start, other) == splice(
            splice(code, other_start, other),
            start,
            window,
        ),
{
    assert(splice(splice(code, start, window), other_start, other) =~= splice(
        splice(code, other_start, other),
        start,
        window,
    ));
}

/// Appends a 32-bit word, least significant byte first.
pub fn put_le32(bytes: &mut Vec<u8>, word: u32)
    ensures
        final(bytes)@ == old(bytes)@ + le32(word),
{
    bytes.push((word % 256) as u8);
    bytes.push((word / 256 % 256) as u8);
    bytes.push((word / 65536 % 256) as u8);
    bytes.push((word / 16777216) as u8);
    assert(bytes@ =~= old(bytes)@ + le32(word));
}

/// Appends `count` copies of `byte`.
pub fn put_repeated(bytes: &mut Vec<u8>, byte: u8, count: usize)
    ensures
        final(bytes)@ == old(bytes)@ + Seq::new(count as nat, |i: int| byte),
{
    let mut done: usize = 0;
    while done < count
        invariant
            done <= count,
            bytes@ == old(bytes)@ + Seq::new(done as nat, |i: int| byte),
        decreases count - done,
    {
        bytes.push(byte);
        done = done + 1;
    }
}

/// Appends all of `tail`.
pub fn put_bytes(bytes: &mut Vec<u8>, tail: &[u8])
    ensures
        final(bytes)@ == old(bytes)@ + tail@,
{
    let mut done: usize = 0;
    while done < tail.len()
        invariant
            done <= tail@.len(),
            bytes@ == old(bytes)@ + tail@.take(done as int),
        decreases tail@.len() - done,
    {
        bytes.push(tail[done]);
        done = done + 1;
    }
    assert(tail@.take(tail@.len() as int) =~= tail@);
}

/// Overwrites the bytes from `start` on with `window`.
pub fn write_window(code: &mut [u8], start: usize, window: &[u8])
    requires
        start + window@.len() <= old(code)@.len(),
    ensures
        final(code)@ == splice(old(code)@, start as int, window@),
{
    let len: usize = code.len();
    let mut done: usize = 0;
    assert(code@ =~= splice(old(code)@, start as int, window@.take(0)));
    while done < window.len()
        invariant
            done <= window@.len(),
            start + window@.len() <= len,
            len == old(code)@.len(),
            code@ == splice(old(code)@, start as int, window@.take(done as int)),
        decreases window@.len() - done,
    {
        code[start + done] = window[done];
        done = done + 1;
        assert(code@ =~= splice(old(code)@, start as int, window@.take(done as int)));
    }
    assert(window@.take(window@.len() as int) =~= window@);
}

} // verus!
