//! Slice bounds of six shapes, and the prediction of which of them must fault.
use crate::mode::SmartStringMode;
use crate::smart::SmartString;
use crate::text::{byte_len, cmp_text, lemma_text_cmp_equal, on_boundary, text_len, valid_span};
use std::cmp::Ordering;
use vstd::prelude::*;
use vstd::string::*;
use vstd::utf8::*;

verus! {

broadcast use {encode_utf8_valid_utf8, is_char_boundary_start_end_of_seq};

/// A byte range in one of the shapes that `str` can be indexed by.
#[derive(Debug, Clone, Copy)]
pub enum TestBounds {
    Range(usize, usize),
    From(usize),
    To(usize),
    Full,
    Inclusive(usize, usize),
    ToInclusive(usize),
}

/// Whether slicing `s` by `b` must fault. An inclusive end is moved one byte
/// on in unbounded arithmetic, so the largest offset is never a boundary.
pub open spec fn bounds_fault(b: TestBounds, s: Seq<char>) -> bool {
    let len = byte_len(s);
    match b {
        TestBounds::Range(lo, hi) => lo > hi || lo > len || hi > len || !on_boundary(s, lo as int)
            || !on_boundary(s, hi as int),
        TestBounds::From(lo) => lo > len || !on_boundary(s, lo as int),
        TestBounds::To(hi) => hi > len || !on_boundary(s, hi as int),
        TestBounds::Full => false,
        TestBounds::Inclusive(lo, hi) => lo > hi || lo > len || hi > len || !on_boundary(
            s,
            lo as int,
        ) || !on_boundary(s, hi + 1),
        TestBounds::ToInclusive(hi) => hi > len || !on_boundary(s, hi + 1),
    }
}

/// The half-open byte span that `b` selects in text of `len` bytes.
pub open spec fn span(b: TestBounds, len: int) -> (int, int) {
    match b {
        TestBounds::Range(lo, hi) => (lo as int, hi as int),
        TestBounds::From(lo) => (lo as int, len),
        TestBounds::To(hi) => (0, hi as int),
        TestBounds::Full => (0, len),
        TestBounds::Inclusive(lo, hi) => (lo as int, hi + 1),
        TestBounds::ToInclusive(hi) => (0, hi + 1),
    }
}

/// The characters that `b` selects in `s`.
pub open spec fn slice_of(b: TestBounds, s: Seq<char>) -> Seq<char> {
    decode_utf8(
        encode_utf8(s).subrange(span(b, byte_len(s)).0, span(b, byte_len(s)).1),
    )
}

/// An offset on a boundary lies within the text.
pub proof fn lemma_boundary_in_range(s: Seq<char>, i: int)
    requires
        on_boundary(s, i),
    ensures
        0 <= i <= byte_len(s),
{
    reveal_with_fuel(is_char_boundary, 1);
}

/// Slicing faults exactly when the selected span does not cover whole characters;
/// an inclusive range whose start is one past its end is the one shape predicted
/// to fault on an empty span.
pub proof fn lemma_fault_iff_invalid_span(b: TestBounds, s: Seq<char>)
    requires
        !(b matches TestBounds::Inclusive(lo, hi) && lo == hi + 1),
    ensures
        bounds_fault(b, s) <==> !valid_span(s, span(b, byte_len(s)).0, span(b, byte_len(s)).1),
{
    let (lo, hi) = span(b, byte_len(s));
    if on_boundary(s, lo) {
        lemma_boundary_in_range(s, lo);
    }
    if on_boundary(s, hi) {
        lemma_boundary_in_range(s, hi);
    }
}

impl TestBounds {
    /// Predicts from the reference text alone whether slicing by `self` faults.
    pub fn should_panic(&self, control: &str) -> (r: bool)
        ensures
            r == bounds_fault(*self, control@),
    {
        let len = text_len(control);
        match *self {
            TestBounds::Range(lo, hi) => lo > hi || lo > len || hi > len
                || !control.is_char_boundary(lo) || !control.is_char_boundary(hi),
            TestBounds::From(lo) => lo > len || !control.is_char_boundary(lo),
            TestBounds::To(hi) => hi > len || !control.is_char_boundary(hi),
            TestBounds::Full => false,
            TestBounds::Inclusive(lo, hi) => {
                if lo > hi || lo > len || hi > len || !control.is_char_boundary(lo) {
                    true
                } else if hi == usize::MAX {
                    assert(!on_boundary(control@, hi + 1)) by {
                        lemma_boundary_inside(control@, hi + 1);
                    }
                    true
                } else {
                    !control.is_char_boundary(hi + 1)
                }
            },
            TestBounds::ToInclusive(hi) => {
                if hi > len {
                    true
                } else if hi == usize::MAX {
                    assert(!on_boundary(control@, hi + 1)) by {
                        lemma_boundary_inside(control@, hi + 1);
                    }
                    true
                } else {
                    !control.is_char_boundary(hi + 1)
                }
            },
        }
    }

    /// Slices the reference and the subject by `self`, where neither must
    /// fault, and reports whether the two slices hold the same text.
    pub fn assert_range<M: SmartStringMode>(&self, control: &str, subject: &SmartString<M>) -> (r:
        bool)
        requires
            !bounds_fault(*self, control@),
            !bounds_fault(*self, subject@),
        ensures
            r == (slice_of(*self, control@) == slice_of(*self, subject@)),
    {
        let a = self.slice_by(control);
        let b = self.slice_by(subject.as_str());
        proof {
            lemma_text_cmp_equal(a@, b@);
        }
        match cmp_text(a, b) {
            Ordering::Equal => true,
            _ => false,
        }
    }

    /// The slice of `text` that `self` selects, where that does not fault.
    fn slice_by<'a>(&self, text: &'a str) -> (r: &'a str)
        requires
            !bounds_fault(*self, text@),
        ensures
            r@ == slice_of(*self, text@),
    {
        let len = text_len(text);
        proof {
            lemma_fault_iff_invalid_span(*self, text@);
        }
        let (lo, hi): (usize, usize) = match *self {
            TestBounds::Range(lo, hi) => (lo, hi),
            TestBounds::From(lo) => (lo, len),
            TestBounds::To(hi) => (0, hi),
            TestBounds::Full => (0, len),
            TestBounds::Inclusive(lo, hi) => (lo, hi + 1),
            TestBounds::ToInclusive(hi) => (0, hi + 1),
        };
        crate::text::slice_text(text, lo, hi)
    }
}

/// An inclusive end at the largest offset faults on every text: the end moved
/// one byte on never wraps to a small offset.
pub proof fn lemma_to_inclusive_max_faults(s: Seq<char>)
    requires
        byte_len(s) <= usize::MAX,
    ensures
        bounds_fault(TestBounds::ToInclusive(usize::MAX), s),
{
    if usize::MAX == byte_len(s) {
        lemma_boundary_inside(s, usize::MAX + 1);
    }
}

/// An offset past the end is no boundary.
proof fn lemma_boundary_inside(s: Seq<char>, i: int)
    requires
        i > byte_len(s),
    ensures
        !on_boundary(s, i),
{
    reveal_with_fuel(is_char_boundary, 1);
}

} // verus!
