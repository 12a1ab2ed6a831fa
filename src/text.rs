//! Byte-level model of UTF-8 text and the `String` operations the oracle drives.
use std::cmp::Ordering;
use vstd::prelude::*;
use vstd::string::*;
use vstd::utf8::*;

verus! {

broadcast use {encode_utf8_valid_utf8, encode_utf8_decode_utf8, is_char_boundary_start_end_of_seq};

/// The UTF-8 bytes of a character sequence.
pub open spec fn bytes(s: Seq<char>) -> Seq<u8> {
    encode_utf8(s)
}

/// The byte length of a character sequence.
pub open spec fn byte_len(s: Seq<char>) -> int {
    encode_utf8(s).len() as int
}

/// Whether `i` is a byte offset between two encoded characters (or at either end).
pub open spec fn on_boundary(s: Seq<char>, i: int) -> bool {
    is_char_boundary(encode_utf8(s), i)
}

/// The characters encoded by the bytes before offset `i`.
pub open spec fn prefix(s: Seq<char>, i: int) -> Seq<char> {
    decode_utf8(bytes(s).subrange(0, i))
}

/// The characters encoded by the bytes from offset `i` on.
pub open spec fn suffix(s: Seq<char>, i: int) -> Seq<char> {
    decode_utf8(bytes(s).subrange(i, byte_len(s)))
}

/// Lexicographic order of two byte sequences.
pub open spec fn lex_cmp(a: Seq<u8>, b: Seq<u8>) -> Ordering
    decreases a.len(),
{
    if a.len() == 0 {
        if b.len() == 0 {
            Ordering::Equal
        } else {
            Ordering::Less
        }
    } else if b.len() == 0 {
        Ordering::Greater
    } else if a[0] < b[0] {
        Ordering::Less
    } else if a[0] > b[0] {
        Ordering::Greater
    } else {
        lex_cmp(a.drop_first(), b.drop_first())
    }
}

/// Text order: strings are ordered by their bytes.
pub open spec fn text_cmp(a: Seq<char>, b: Seq<char>) -> Ordering {
    lex_cmp(bytes(a), bytes(b))
}

/// Comparing a byte sequence with itself gives `Equal`, and only then.
pub proof fn lemma_lex_cmp_equal(a: Seq<u8>, b: Seq<u8>)
    ensures
        (lex_cmp(a, b) == Ordering::Equal) <==> a == b,
    decreases a.len(),
{
    if a.len() > 0 && b.len() > 0 && a[0] == b[0] {
        lemma_lex_cmp_equal(a.drop_first(), b.drop_first());
        if a.drop_first() == b.drop_first() {
            assert(a =~= seq![a[0]] + a.drop_first());
            assert(b =~= seq![b[0]] + b.drop_first());
        }
        if a == b {
            assert(a.drop_first() == b.drop_first());
        }
    } else if a.len() == 0 && b.len() == 0 {
        assert(a =~= b);
    } else if a.len() > 0 && b.len() > 0 {
        assert(a[0] != b[0]);
        assert(a != b);
    }
}

/// Texts compare equal exactly when they hold the same characters.
pub proof fn lemma_text_cmp_equal(a: Seq<char>, b: Seq<char>)
    ensures
        (text_cmp(a, b) == Ordering::Equal) <==> a == b,
{
    lemma_lex_cmp_equal(bytes(a), bytes(b));
    if bytes(a) == bytes(b) {
        assert(decode_utf8(encode_utf8(a)) == a);
        assert(decode_utf8(encode_utf8(b)) == b);
    }
}

/// Relies on `<str as Ord>::cmp`: strings are ordered lexicographically by their bytes.
#[verifier::external_body]
pub(crate) fn cmp_text(a: &str, b: &str) -> (r: Ordering)
    ensures
        r == text_cmp(a@, b@),
{
    a.cmp(b)
}

/// Relies on `str::len`: the length in bytes, which the allocation bounds.
#[verifier::external_body]
pub(crate) fn text_len(s: &str) -> (r: usize)
    ensures
        r as int == byte_len(s@),
{
    s.len()
}

/// Whether `lo..hi` selects whole characters of `s`.
pub open spec fn valid_span(s: Seq<char>, lo: int, hi: int) -> bool {
    lo <= hi && on_boundary(s, lo) && on_boundary(s, hi)
}

/// Relies on `<str as Index<Range<usize>>>::index`: the bytes `start..end`, which
/// must lie on character boundaries.
#[verifier::external_body]
pub(crate) fn slice_text(s: &str, start: usize, end: usize) -> (r: &str)
    requires
        valid_span(s@, start as int, end as int),
    ensures
        r@ == decode_utf8(bytes(s@).subrange(start as int, end as int)),
{
    &s[start..end]
}

/// Relies on `String::push`: appends one character.
#[verifier::external_body]
pub(crate) fn push_char(s: &mut String, c: char)
    ensures
        final(s)@ == old(s)@.push(c),
{
    s.push(c)
}

/// Relies on `String::push_str`: appends a string.
#[verifier::external_body]
pub(crate) fn push_text(s: &mut String, t: &str)
    ensures
        final(s)@ == old(s)@ + t@,
{
    s.push_str(t)
}

/// Relies on `String::truncate`: keeps the first `n` bytes; no effect when `n`
/// is at least the length; panics when `n` is inside a character.
#[verifier::external_body]
pub(crate) fn truncate_text(s: &mut String, n: usize)
    requires
        n >= byte_len(old(s)@) || on_boundary(old(s)@, n as int),
    ensures
        n >= byte_len(old(s)@) ==> final(s)@ == old(s)@,
        n < byte_len(old(s)@) ==> final(s)@ == prefix(old(s)@, n as int),
{
    s.truncate(n)
}

/// Relies on `String::pop`: removes and returns the last character, `None` when empty.
#[verifier::external_body]
pub(crate) fn pop_char(s: &mut String) -> (r: Option<char>)
    ensures
        old(s)@.len() == 0 ==> r.is_none() && final(s)@ == old(s)@,
        old(s)@.len() > 0 ==> r == Some(old(s)@.last()) && final(s)@ == old(s)@.drop_last(),
{
    s.pop()
}

/// Relies on `String::remove`: removes and returns the character that starts at
/// byte `i`; panics unless `i` is a boundary before the end.
#[verifier::external_body]
pub(crate) fn remove_char(s: &mut String, i: usize) -> (r: char)
    requires
        i < byte_len(old(s)@),
        on_boundary(old(s)@, i as int),
    ensures
        r == suffix(old(s)@, i as int)[0],
        final(s)@ == prefix(old(s)@, i as int) + suffix(old(s)@, i as int).drop_first(),
{
    s.remove(i)
}

/// Relies on `String::insert`: inserts a character at byte `i`; panics unless `i`
/// is a boundary.
#[verifier::external_body]
pub(crate) fn insert_char(s: &mut String, i: usize, c: char)
    requires
        on_boundary(old(s)@, i as int),
    ensures
        final(s)@ == prefix(old(s)@, i as int) + seq![c] + suffix(old(s)@, i as int),
{
    s.insert(i, c)
}

/// Relies on `String::insert_str`: inserts a string at byte `i`; panics unless
/// `i` is a boundary.
#[verifier::external_body]
pub(crate) fn insert_text(s: &mut String, i: usize, t: &str)
    requires
        on_boundary(old(s)@, i as int),
    ensures
        final(s)@ == prefix(old(s)@, i as int) + t@ + suffix(old(s)@, i as int),
{
    s.insert_str(i, t)
}

/// Relies on `String::split_off`: keeps the bytes before `i` and returns the
/// rest; panics unless `i` is a boundary.
#[verifier::external_body]
pub(crate) fn split_text(s: &mut String, i: usize) -> (r: String)
    requires
        on_boundary(old(s)@, i as int),
    ensures
        final(s)@ == prefix(old(s)@, i as int),
        r@ == suffix(old(s)@, i as int),
{
    s.split_off(i)
}

/// Relies on `String::clear`: empties the string.
#[verifier::external_body]
pub(crate) fn clear_text(s: &mut String)
    ensures
        final(s)@ == Seq::<char>::empty(),
{
    s.clear()
}

/// Whether `c` occurs in `filter`.
pub fn keeps(filter: &str, c: char) -> (r: bool)
    ensures
        r == filter@.contains(c),
{
    let n = filter.unicode_len();
    let mut i: usize = 0;
    while i < n
        invariant
            n == filter@.len(),
            i <= n,
            forall|j: int| 0 <= j < i ==> filter@[j] != c,
        decreases n - i,
    {
        if filter.get_char(i) == c {
            return true;
        }
        i = i + 1;
    }
    false
}

/// Relies on `String::retain`: keeps, in order, the characters for which the
/// predicate holds; here the predicate is membership in `filter`.
#[verifier::external_body]
pub(crate) fn retain_text(s: &mut String, filter: &str)
    ensures
        final(s)@ == old(s)@.filter(|c: char| filter@.contains(c)),
{
    s.retain(|c| keeps(filter, c))
}

} // verus!
