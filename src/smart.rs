//! The small-string subject: a `String` with a storage class that its layout
//! mode fixes from the byte length.
use crate::mode::SmartStringMode;
use crate::text::{
    bytes, byte_len, clear_text, prefix, suffix, insert_char, insert_text, lex_cmp, on_boundary, text_len, pop_char,
    push_char, push_text, remove_char, retain_text, slice_text, split_text, text_cmp, truncate_text,
    valid_span,
};
use std::cmp::Ordering;
use std::marker::PhantomData;
use vstd::prelude::*;
use vstd::string::*;
use vstd::utf8::*;

verus! {

broadcast use {encode_utf8_valid_utf8, encode_utf8_decode_utf8, is_char_boundary_start_end_of_seq};

/// Orders two byte sequences lexicographically.
pub fn compare_bytes(a: &[u8], b: &[u8]) -> (r: Ordering)
    ensures
        r == lex_cmp(a@, b@),
{
    let mut i: usize = 0;
    assert(a@.skip(0) =~= a@);
    assert(b@.skip(0) =~= b@);
    while i < a.len() && i < b.len() && a[i] == b[i]
        invariant
            i <= a@.len(),
            i <= b@.len(),
            lex_cmp(a@, b@) == lex_cmp(a@.skip(i as int), b@.skip(i as int)),
        decreases a@.len() - i,
    {
        assert(a@.skip(i as int).drop_first() =~= a@.skip(i + 1));
        assert(b@.skip(i as int).drop_first() =~= b@.skip(i + 1));
        i = i + 1;
    }
    if i == a.len() {
        if i == b.len() {
            Ordering::Equal
        } else {
            Ordering::Less
        }
    } else if i == b.len() {
        Ordering::Greater
    } else if a[i] < b[i] {
        Ordering::Less
    } else {
        Ordering::Greater
    }
}

/// Text held in a `String`, with a flag that records whether the layout mode
/// classes it as inline (byte length at most the mode's inline capacity) or as
/// boxed. The flag is recomputed after every change.
pub struct SmartString<M: SmartStringMode> {
    text: String,
    inline: bool,
    mode: PhantomData<M>,
}

impl<M: SmartStringMode> View for SmartString<M> {
    type V = Seq<char>;

    closed spec fn view(&self) -> Seq<char> {
        self.text@
    }
}

impl<M: SmartStringMode> Clone for SmartString<M> {
    fn clone(&self) -> (r: Self)
        ensures
            r@ == self@,
            r.wf() == self.wf(),
    {
        SmartString { text: self.text.clone(), inline: self.inline, mode: PhantomData }
    }
}

impl<M: SmartStringMode> SmartString<M> {
    /// The storage class matches the byte length.
    pub closed spec fn wf(&self) -> bool {
        self.inline == (byte_len(self.text@) <= M::spec_max_inline())
    }

    /// The storage class the value records.
    pub closed spec fn stored_inline(&self) -> bool {
        self.inline
    }

    /// A well-formed value records the storage class that its length calls for.
    pub proof fn lemma_storage_class(&self)
        requires
            self.wf(),
        ensures
            self.stored_inline() == Self::inline_for(self@),
    {
    }

    /// Whether text of this length is stored inline.
    pub open spec fn inline_for(s: Seq<char>) -> bool {
        byte_len(s) <= M::spec_max_inline()
    }

    fn classify(text: String) -> (r: Self)
        ensures
            r.wf(),
            r@ == text@,
    {
        let inline = text_len(text.as_str()) <= M::max_inline();
        SmartString { text, inline, mode: PhantomData }
    }

    fn reclassify(&mut self)
        ensures
            final(self).wf(),
            final(self)@ == old(self)@,
    {
        self.inline = text_len(self.text.as_str()) <= M::max_inline();
    }

    /// The empty text.
    pub fn new() -> (r: Self)
        ensures
            r.wf(),
            r@ == Seq::<char>::empty(),
    {
        Self::classify(String::new())
    }

    /// Takes ownership of `text`.
    pub fn from_string(text: String) -> (r: Self)
        ensures
            r.wf(),
            r@ == text@,
    {
        Self::classify(text)
    }

    /// Copies `text`.
    pub fn from_text(text: &str) -> (r: Self)
        ensures
            r.wf(),
            r@ == text@,
    {
        Self::classify(text.to_owned())
    }

    /// The byte length.
    pub fn len(&self) -> (r: usize)
        ensures
            r as int == byte_len(self@),
    {
        text_len(self.text.as_str())
    }

    /// Whether the text is stored inline.
    pub fn is_inline(&self) -> (r: bool)
        ensures
            r == self.stored_inline(),
            self.wf() ==> r == Self::inline_for(self@),
    {
        self.inline
    }

    /// The text as a string slice.
    pub fn as_str(&self) -> (r: &str)
        ensures
            r@ == self@,
    {
        self.text.as_str()
    }

    /// The text as a `String`.
    pub fn into_string(self) -> (r: String)
        ensures
            r@ == self@,
    {
        self.text
    }

    /// Orders by bytes.
    pub fn cmp(&self, other: &Self) -> (r: Ordering)
        ensures
            r == text_cmp(self@, other@),
    {
        compare_bytes(self.text.as_str().as_bytes(), other.text.as_str().as_bytes())
    }

    /// Orders against a string slice by bytes.
    pub fn cmp_str(&self, other: &str) -> (r: Ordering)
        ensures
            r == text_cmp(self@, other@),
    {
        compare_bytes(self.text.as_str().as_bytes(), other.as_bytes())
    }

    /// The bytes `start..end`.
    pub fn slice(&self, start: usize, end: usize) -> (r: &str)
        requires
            valid_span(self@, start as int, end as int),
        ensures
            r@ == decode_utf8(bytes(self@).subrange(start as int, end as int)),
    {
        slice_text(self.text.as_str(), start, end)
    }

    /// Appends a character.
    pub fn push(&mut self, c: char)
        ensures
            final(self).wf(),
            final(self)@ == old(self)@.push(c),
    {
        push_char(&mut self.text, c);
        self.reclassify();
    }

    /// Appends a string.
    pub fn push_str(&mut self, t: &str)
        ensures
            final(self).wf(),
            final(self)@ == old(self)@ + t@,
    {
        push_text(&mut self.text, t);
        self.reclassify();
    }

    /// Keeps the first `n` bytes; no effect when `n` is at least the length.
    pub fn truncate(&mut self, n: usize)
        requires
            n >= byte_len(old(self)@) || on_boundary(old(self)@, n as int),
        ensures
            final(self).wf(),
            n >= byte_len(old(self)@) ==> final(self)@ == old(self)@,
            n < byte_len(old(self)@) ==> final(self)@ == prefix(old(self)@, n as int),
    {
        truncate_text(&mut self.text, n);
        self.reclassify();
    }

    /// Removes and returns the last character.
    pub fn pop(&mut self) -> (r: Option<char>)
        ensures
            final(self).wf(),
            old(self)@.len() == 0 ==> r.is_none() && final(self)@ == old(self)@,
            old(self)@.len() > 0 ==> r == Some(old(self)@.last()) && final(self)@ == old(
                self,
            )@.drop_last(),
    {
        let r = pop_char(&mut self.text);
        self.reclassify();
        r
    }

    /// Removes and returns the character that starts at byte `i`.
    pub fn remove(&mut self, i: usize) -> (r: char)
        requires
            i < byte_len(old(self)@),
            on_boundary(old(self)@, i as int),
        ensures
            final(self).wf(),
            r == suffix(old(self)@, i as int)[0],
            final(self)@ == prefix(old(self)@, i as int) + suffix(old(self)@, i as int).drop_first(),
    {
        let r = remove_char(&mut self.text, i);
        self.reclassify();
        r
    }

    /// Inserts a character at byte `i`.
    pub fn insert(&mut self, i: usize, c: char)
        requires
            on_boundary(old(self)@, i as int),
        ensures
            final(self).wf(),
            final(self)@ == prefix(old(self)@, i as int) + seq![c] + suffix(old(self)@, i as int),
    {
        insert_char(&mut self.text, i, c);
        self.reclassify();
    }

    /// Inserts a string at byte `i`.
    pub fn insert_str(&mut self, i: usize, t: &str)
        requires
            on_boundary(old(self)@, i as int),
        ensures
            final(self).wf(),
            final(self)@ == prefix(old(self)@, i as int) + t@ + suffix(old(self)@, i as int),
    {
        insert_text(&mut self.text, i, t);
        self.reclassify();
    }

    /// Keeps the bytes before `i` and returns the rest.
    pub fn split_off(&mut self, i: usize) -> (r: Self)
        requires
            on_boundary(old(self)@, i as int),
        ensures
            final(self).wf(),
            r.wf(),
            final(self)@ == prefix(old(self)@, i as int),
            r@ == suffix(old(self)@, i as int),
    {
        let rest = split_text(&mut self.text, i);
        self.reclassify();
        Self::classify(rest)
    }

    /// Empties the text.
    pub fn clear(&mut self)
        ensures
            final(self).wf(),
            final(self)@ == Seq::<char>::empty(),
    {
        clear_text(&mut self.text);
        self.reclassify();
    }

    /// Keeps, in order, the characters that occur in `filter`.
    pub fn retain(&mut self, filter: &str)
        ensures
            final(self).wf(),
            final(self)@ == old(self)@.filter(|c: char| filter@.contains(c)),
    {
        retain_text(&mut self.text, filter);
        self.reclassify();
    }
}

} // verus!
