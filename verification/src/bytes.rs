//! Raw bytes: searching them, and reading them as text.

use vstd::prelude::*;
use vstd::slice::slice_subrange;
use vstd::utf8::{decode_utf8, valid_utf8};
use crate::text::{chars_of, code_of};

verus! {

/// What `String::from_utf8_lossy` reads from bytes: their text, with U+FFFD in place of what is
/// not UTF-8.
pub uninterp spec fn lossy_text(bytes: Seq<u8>) -> Seq<char>;

/// `String::from_utf8_lossy` reads the bytes as text. Valid UTF-8 is decoded as it stands; what
/// becomes of the rest is left to the name `lossy_text`.
#[verifier::external_body]
pub(crate) fn read_lossy(bytes: &[u8]) -> (r: String)
    ensures
        r@ == lossy_text(bytes@),
        valid_utf8(bytes@) ==> r@ == decode_utf8(bytes@),
{
    String::from_utf8_lossy(bytes).into_owned()
}

/// `std::str::from_utf8` accepts exactly the valid UTF-8 sequences, and decodes them.
#[verifier::external_body]
pub(crate) fn read_utf8(bytes: &[u8]) -> (r: Option<String>)
    ensures
        r is Some <==> valid_utf8(bytes@),
        r matches Some(s) ==> s@ == decode_utf8(bytes@),
{
    std::str::from_utf8(bytes).ok().map(str::to_string)
}

/// The text that `bytes` encode, where they are UTF-8.
pub open spec fn utf8_text(bytes: Seq<u8>) -> Option<Seq<char>> {
    if valid_utf8(bytes) {
        Some(decode_utf8(bytes))
    } else {
        None
    }
}

/// Whether each byte is the code of the character at its place in `s`.
pub open spec fn bytes_spell(bytes: Seq<u8>, s: Seq<char>) -> bool {
    bytes.len() == s.len() && forall|i: int|
        0 <= i < s.len() ==> #[trigger] bytes[i] as int == s[i] as int
}

/// Whether the bytes of `s` stand in `bytes` at position `i`.
pub open spec fn bytes_at(bytes: Seq<u8>, s: Seq<char>, i: int) -> bool {
    0 <= i && i + s.len() <= bytes.len() && bytes_spell(bytes.subrange(i, i + s.len()), s)
}

/// Whether each byte is the code of the character at its place in `s`.
pub fn spelled(bytes: &[u8], s: &str) -> (r: bool)
    ensures
        r == bytes_spell(bytes@, s@),
{
    let cs: Vec<char> = chars_of(s);
    if bytes.len() != cs.len() {
        return false;
    }
    let mut i: usize = 0;
    while i < bytes.len()
        invariant
            i <= bytes.len(),
            bytes.len() == cs.len(),
            cs@ == s@,
            forall|j: int| 0 <= j < i ==> #[trigger] bytes@[j] as int == s@[j] as int,
        decreases bytes.len() - i,
    {
        if bytes[i] as u32 != code_of(cs[i]) {
            assert(bytes@[i as int] as int != s@[i as int] as int);
            return false;
        }
        i += 1;
    }
    true
}

/// Whether the bytes of `s` stand in `bytes` at position `i`.
pub fn spelled_at(bytes: &[u8], s: &str, i: usize) -> (r: bool)
    ensures
        r == bytes_at(bytes@, s@, i as int),
{
    let n: usize = chars_of(s).len();
    if i > bytes.len() || n > bytes.len() - i {
        return false;
    }
    spelled(slice_subrange(bytes, i, i + n), s)
}

/// Whether the bytes of `s` stand anywhere in `bytes`.
pub open spec fn bytes_hold(bytes: Seq<u8>, s: Seq<char>) -> bool {
    exists|i: int| bytes_at(bytes, s, i)
}

/// Whether the bytes of `s` stand anywhere in `bytes`.
pub fn spelled_within(bytes: &[u8], s: &str) -> (r: bool)
    ensures
        r == bytes_hold(bytes@, s@),
{
    let mut i: usize = 0;
    while i < bytes.len()
        invariant
            i <= bytes.len(),
            forall|j: int| 0 <= j < i ==> !bytes_at(bytes@, s@, j),
        decreases bytes.len() - i,
    {
        if spelled_at(bytes, s, i) {
            return true;
        }
        i += 1;
    }
    if spelled_at(bytes, s, i) {
        return true;
    }
    false
}

/// The first position at or after `from` that holds `b`, or the length of `s`.
pub open spec fn byte_from(s: Seq<u8>, b: u8, from: int) -> int
    decreases s.len() - from,
{
    if from >= s.len() {
        s.len() as int
    } else if s[from] == b {
        from
    } else {
        byte_from(s, b, from + 1)
    }
}

/// `byte_from` stays in range, holds `b` there, and passes no earlier `b`.
pub proof fn lemma_byte_from(s: Seq<u8>, b: u8, from: int)
    requires
        0 <= from <= s.len(),
    ensures
        from <= byte_from(s, b, from) <= s.len(),
        byte_from(s, b, from) < s.len() ==> s[byte_from(s, b, from)] == b,
        forall|j: int| from <= j < byte_from(s, b, from) ==> s[j] != b,
    decreases s.len() - from,
{
    if from < s.len() && s[from] != b {
        lemma_byte_from(s, b, from + 1);
    }
}

/// The first position at or after `from` that holds `b`, or the length of `s`.
pub fn find_byte(s: &[u8], b: u8, from: usize) -> (r: usize)
    requires
        from <= s.len(),
    ensures
        r == byte_from(s@, b, from as int),
        from <= r <= s.len(),
{
    let mut i: usize = from;
    while i < s.len()
        invariant
            from <= i <= s.len(),
            byte_from(s@, b, from as int) == byte_from(s@, b, i as int),
        decreases s.len() - i,
    {
        if s[i] == b {
            return i;
        }
        i += 1;
    }
    i
}

/// The number that four bytes hold, most significant first.
pub open spec fn be32(s: Seq<u8>, at: int) -> nat {
    (s[at] as nat) * 0x1000000 + (s[at + 1] as nat) * 0x10000 + (s[at + 2] as nat) * 0x100 + (s[at
        + 3] as nat)
}

/// The number that two bytes hold, most significant first.
pub open spec fn be16(s: Seq<u8>, at: int) -> nat {
    (s[at] as nat) * 0x100 + (s[at + 1] as nat)
}

/// The number that the four bytes at `at` hold, most significant first.
pub fn read_be32(s: &[u8], at: usize) -> (r: u32)
    requires
        at + 4 <= s.len(),
    ensures
        r == be32(s@, at as int),
{
    (s[at] as u32) * 0x1000000 + (s[at + 1] as u32) * 0x10000 + (s[at + 2] as u32) * 0x100 + (s[at
        + 3] as u32)
}

/// The number that the two bytes at `at` hold, most significant first.
pub fn read_be16(s: &[u8], at: usize) -> (r: u32)
    requires
        at + 2 <= s.len(),
    ensures
        r == be16(s@, at as int),
        r < 0x10000,
{
    (s[at] as u32) * 0x100 + (s[at + 1] as u32)
}

} // verus!
