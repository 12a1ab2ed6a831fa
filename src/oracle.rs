//! Replays operations on a reference `String` and on the subject side by side,
//! predicting the faults and checking the invariants after every step.
use crate::bounds::{bounds_fault, lemma_boundary_in_range, lemma_fault_iff_invalid_span, span, TestBounds};
use crate::mode::SmartStringMode;
use crate::smart::SmartString;
use crate::text::{
    byte_len, clear_text, cmp_text, insert_char, insert_text, lemma_text_cmp_equal, on_boundary,
    pop_char, prefix, push_char, push_text, remove_char, retain_text, split_text, suffix,
    text_cmp, text_len, truncate_text, valid_span,
};
use std::cmp::Ordering;
use vstd::prelude::*;
use vstd::string::*;
use vstd::utf8::*;

verus! {

broadcast use {encode_utf8_valid_utf8, is_char_boundary_start_end_of_seq};

/// How the reference and the subject are first built.
#[derive(Debug, Clone)]
pub enum Constructor {
    New,
    FromString(String),
    FromStringSlice(String),
}

/// The text a constructor starts from.
pub open spec fn constructed(c: Constructor) -> Seq<char> {
    match c {
        Constructor::New => Seq::<char>::empty(),
        Constructor::FromString(s) => s@,
        Constructor::FromStringSlice(s) => s@,
    }
}

impl Constructor {
    /// Builds the reference and the subject from the same text.
    pub fn construct<M: SmartStringMode>(self) -> (r: (String, SmartString<M>))
        ensures
            r.1.wf(),
            r.0@ == constructed(self),
            r.1@ == r.0@,
            invariants_hold(r.0@, r.1),
    {
        let r: (String, SmartString<M>) = match self {
            Constructor::New => (String::new(), SmartString::new()),
            Constructor::FromString(s) => (s.clone(), SmartString::from_string(s)),
            Constructor::FromStringSlice(s) => (s.clone(), SmartString::from_text(s.as_str())),
        };
        proof {
            lemma_invariants_of_equal_text(r.0@, r.1);
        }
        r
    }
}

/// One operation, with everything needed to replay it.
#[derive(Debug, Clone)]
pub enum Action {
    Slice(TestBounds),
    Push(char),
    PushStr(String),
    Truncate(usize),
    Pop,
    Remove(usize),
    Insert(usize, char),
    InsertStr(usize, String),
    SplitOff(usize),
    Clear,
    IntoString,
    Retain(String),
}

/// What became of one operation.
#[derive(Debug, Clone, Copy, PartialEq, Eq, Structural)]
pub enum Outcome {
    /// Both sides ran it and agree.
    Completed,
    /// It must fault on both sides, so neither side was touched.
    Faulted,
    /// The two sides returned different values.
    Diverged,
}

/// Whether `a` must fault on text `s`.
pub open spec fn action_faults(a: Action, s: Seq<char>) -> bool {
    match a {
        Action::Slice(b) => bounds_fault(b, s),
        Action::Truncate(i) => i <= byte_len(s) && !on_boundary(s, i as int),
        Action::Remove(i) => i >= byte_len(s) || !on_boundary(s, i as int),
        Action::Insert(i, _) => i > byte_len(s) || !on_boundary(s, i as int),
        Action::InsertStr(i, _) => i > byte_len(s) || !on_boundary(s, i as int),
        Action::SplitOff(i) => !on_boundary(s, i as int),
        _ => false,
    }
}

/// The text after `a` runs on `s` without fault.
pub open spec fn apply(a: Action, s: Seq<char>) -> Seq<char> {
    match a {
        Action::Slice(_) => s,
        Action::Push(c) => s.push(c),
        Action::PushStr(t) => s + t@,
        Action::Truncate(i) => if i >= byte_len(s) {
            s
        } else {
            prefix(s, i as int)
        },
        Action::Pop => if s.len() == 0 {
            s
        } else {
            s.drop_last()
        },
        Action::Remove(i) => prefix(s, i as int) + suffix(s, i as int).drop_first(),
        Action::Insert(i, c) => prefix(s, i as int) + seq![c] + suffix(s, i as int),
        Action::InsertStr(i, t) => prefix(s, i as int) + t@ + suffix(s, i as int),
        Action::SplitOff(i) => prefix(s, i as int),
        Action::Clear => Seq::<char>::empty(),
        Action::IntoString => s,
        Action::Retain(f) => s.filter(|c: char| f@.contains(c)),
    }
}

/// The text after `a`: unchanged where `a` faults.
pub open spec fn step(a: Action, s: Seq<char>) -> Seq<char> {
    if action_faults(a, s) {
        s
    } else {
        apply(a, s)
    }
}

/// The text after running `actions` in order from `s`.
pub open spec fn replay(s: Seq<char>, actions: Seq<Action>) -> Seq<char>
    decreases actions.len(),
{
    if actions.len() == 0 {
        s
    } else {
        step(actions.last(), replay(s, actions.drop_last()))
    }
}

/// Whether `a` is defined on `s`: what both the reference operation and the
/// subject's method require of their arguments.
pub open spec fn call_defined(a: Action, s: Seq<char>) -> bool {
    match a {
        Action::Slice(b) => valid_span(s, span(b, byte_len(s)).0, span(b, byte_len(s)).1),
        Action::Truncate(i) => i >= byte_len(s) || on_boundary(s, i as int),
        Action::Remove(i) => i < byte_len(s) && on_boundary(s, i as int),
        Action::Insert(i, _) => on_boundary(s, i as int),
        Action::InsertStr(i, _) => on_boundary(s, i as int),
        Action::SplitOff(i) => on_boundary(s, i as int),
        _ => true,
    }
}

/// A fault is predicted exactly when the operation is undefined on the current
/// text, on the reference and on the subject alike. The exception is an
/// inclusive slice whose start is one past its end: it is predicted to fault
/// although the span it selects is empty.
pub proof fn lemma_fault_iff_undefined(a: Action, s: Seq<char>)
    requires
        !(a matches Action::Slice(TestBounds::Inclusive(lo, hi)) && lo == hi + 1),
    ensures
        action_faults(a, s) <==> !call_defined(a, s),
{
    match a {
        Action::Slice(b) => lemma_fault_iff_invalid_span(b, s),
        Action::Truncate(i) => if on_boundary(s, i as int) {
            lemma_boundary_in_range(s, i as int);
        },
        Action::Remove(i) => if on_boundary(s, i as int) {
            lemma_boundary_in_range(s, i as int);
        },
        Action::Insert(i, _) => if on_boundary(s, i as int) {
            lemma_boundary_in_range(s, i as int);
        },
        Action::InsertStr(i, _) => if on_boundary(s, i as int) {
            lemma_boundary_in_range(s, i as int);
        },
        _ => {},
    }
}

/// A subject rebuilt from the reference text compares equal to a subject that
/// holds that text.
pub proof fn lemma_rederived_compares_equal<M: SmartStringMode>(
    control: Seq<char>,
    subject: SmartString<M>,
    rebuilt: SmartString<M>,
)
    requires
        subject@ == control,
        rebuilt@ == control,
    ensures
        text_cmp(subject@, rebuilt@) == Ordering::Equal,
{
    lemma_text_cmp_equal(subject@, rebuilt@);
}

/// Whether two orderings are the same.
fn same_order(a: Ordering, b: Ordering) -> (r: bool)
    ensures
        r == (a == b),
{
    match (a, b) {
        (Ordering::Less, Ordering::Less) => true,
        (Ordering::Equal, Ordering::Equal) => true,
        (Ordering::Greater, Ordering::Greater) => true,
        _ => false,
    }
}

impl Action {
    /// Runs the operation on both sides, or, where it must fault, on neither.
    pub fn perform<M: SmartStringMode>(self, control: &mut String, subject: &mut SmartString<M>) -> (r:
        Outcome)
        requires
            old(subject).wf(),
            old(subject)@ == old(control)@,
        ensures
            final(subject).wf(),
            final(subject)@ == final(control)@,
            invariants_hold(final(control)@, *final(subject)),
            (r == Outcome::Faulted) == action_faults(self, old(control)@),
            r != Outcome::Diverged,
            final(control)@ == step(self, old(control)@),
    {
        let r = self.apply_both(control, subject);
        proof {
            lemma_invariants_of_equal_text(control@, *subject);
        }
        r
    }

    fn apply_both<M: SmartStringMode>(self, control: &mut String, subject: &mut SmartString<M>) -> (r:
        Outcome)
        requires
            old(subject).wf(),
            old(subject)@ == old(control)@,
        ensures
            final(subject).wf(),
            final(subject)@ == final(control)@,
            (r == Outcome::Faulted) == action_faults(self, old(control)@),
            r != Outcome::Diverged,
            final(control)@ == step(self, old(control)@),
    {
        let len = text_len(control.as_str());
        match self {
            Action::Slice(range) => {
                if range.should_panic(control.as_str()) {
                    Outcome::Faulted
                } else if range.assert_range(control.as_str(), subject) {
                    Outcome::Completed
                } else {
                    Outcome::Diverged
                }
            },
            Action::Push(c) => {
                push_char(control, c);
                subject.push(c);
                Outcome::Completed
            },
            Action::PushStr(t) => {
                push_text(control, t.as_str());
                subject.push_str(t.as_str());
                Outcome::Completed
            },
            Action::Truncate(i) => {
                if i <= len && !control.as_str().is_char_boundary(i) {
                    Outcome::Faulted
                } else {
                    truncate_text(control, i);
                    subject.truncate(i);
                    Outcome::Completed
                }
            },
            Action::Pop => {
                let a = pop_char(control);
                let b = subject.pop();
                match (a, b) {
                    (None, None) => Outcome::Completed,
                    (Some(x), Some(y)) => if x == y {
                        Outcome::Completed
                    } else {
                        Outcome::Diverged
                    },
                    _ => Outcome::Diverged,
                }
            },
            Action::Remove(i) => {
                if i >= len || !control.as_str().is_char_boundary(i) {
                    Outcome::Faulted
                } else {
                    let a = remove_char(control, i);
                    let b = subject.remove(i);
                    if a == b {
                        Outcome::Completed
                    } else {
                        Outcome::Diverged
                    }
                }
            },
            Action::Insert(i, c) => {
                if i > len || !control.as_str().is_char_boundary(i) {
                    Outcome::Faulted
                } else {
                    insert_char(control, i, c);
                    subject.insert(i, c);
                    Outcome::Completed
                }
            },
            Action::InsertStr(i, t) => {
                if i > len || !control.as_str().is_char_boundary(i) {
                    Outcome::Faulted
                } else {
                    insert_text(control, i, t.as_str());
                    subject.insert_str(i, t.as_str());
                    Outcome::Completed
                }
            },
            Action::SplitOff(i) => {
                if !control.as_str().is_char_boundary(i) {
                    Outcome::Faulted
                } else {
                    let a = split_text(control, i);
                    let b = subject.split_off(i);
                    proof {
                        lemma_text_cmp_equal(a@, b@);
                    }
                    if same_order(cmp_text(a.as_str(), b.as_str()), Ordering::Equal) {
                        Outcome::Completed
                    } else {
                        Outcome::Diverged
                    }
                }
            },
            Action::Clear => {
                clear_text(control);
                subject.clear();
                Outcome::Completed
            },
            Action::IntoString => {
                let copy: String = subject.clone().into_string();
                if *control == copy {
                    Outcome::Completed
                } else {
                    Outcome::Diverged
                }
            },
            Action::Retain(filter) => {
                retain_text(control, filter.as_str());
                subject.retain(filter.as_str());
                Outcome::Completed
            },
        }
    }
}

/// One of the invariants checked after every step.
#[derive(Debug, Clone, Copy, PartialEq, Eq, Structural)]
pub enum Invariant {
    /// The two sides hold the same text.
    Content,
    /// The two sides report the same byte length.
    Length,
    /// The subject is inline exactly when its length fits the mode's capacity.
    Storage,
    /// Both sides order the same against a fixed text.
    Order,
    /// A subject rebuilt from the reference text compares equal to the subject.
    Rederived,
}

/// The first invariant that failed, and after how many operations.
#[derive(Debug, Clone, Copy, PartialEq, Eq, Structural)]
pub struct Violation {
    pub step: usize,
    pub invariant: Invariant,
}

/// The fixed text both sides are ordered against.
pub const PROBE: &'static str = "ordering test";

/// The invariants of a reference text and a subject: the same text and byte
/// length, the storage class that the length calls for, the same order against
/// the probe text, and equality with a subject rebuilt from the reference text.
pub open spec fn invariants_hold<M: SmartStringMode>(control: Seq<char>, subject: SmartString<M>) -> bool {
    &&& subject@ == control
    &&& byte_len(subject@) == byte_len(control)
    &&& subject.stored_inline() == (byte_len(subject@) <= M::spec_max_inline())
    &&& text_cmp(control, PROBE@) == text_cmp(subject@, PROBE@)
    &&& text_cmp(subject@, control) == Ordering::Equal
}

/// A well-formed subject that holds the reference text meets every invariant.
pub proof fn lemma_invariants_of_equal_text<M: SmartStringMode>(
    control: Seq<char>,
    subject: SmartString<M>,
)
    requires
        subject.wf(),
        subject@ == control,
    ensures
        invariants_hold(control, subject),
{
    subject.lemma_storage_class();
    lemma_text_cmp_equal(subject@, control);
}

/// Checks the invariants of a reference and a subject; returns the first that fails.
pub fn assert_invariants<M: SmartStringMode>(control: &str, subject: &SmartString<M>) -> (r: Option<
    Invariant,
>)
    requires
        subject.wf(),
    ensures
        r == (if subject@ == control@ {
            None
        } else {
            Some(Invariant::Content)
        }),
{
    proof {
        lemma_text_cmp_equal(control@, subject@);
    }
    if !same_order(cmp_text(control, subject.as_str()), Ordering::Equal) {
        return Some(Invariant::Content);
    }
    if text_len(control) != subject.len() {
        return Some(Invariant::Length);
    }
    if subject.is_inline() != (subject.len() <= M::max_inline()) {
        return Some(Invariant::Storage);
    }
    if !same_order(cmp_text(control, PROBE), subject.cmp_str(PROBE)) {
        return Some(Invariant::Order);
    }
    let rebuilt: SmartString<M> = SmartString::from_text(control);
    proof {
        lemma_text_cmp_equal(subject@, rebuilt@);
    }
    if !same_order(subject.cmp(&rebuilt), Ordering::Equal) {
        return Some(Invariant::Rederived);
    }
    None
}

/// Builds both sides with `constructor`, runs `actions` on them in order and
/// checks the invariants after construction and after every action. On success
/// returns the outcome of each action and the two sides as they end.
pub fn execute<M: SmartStringMode>(constructor: Constructor, actions: Vec<Action>) -> (r: Result<
    (Vec<Outcome>, String, SmartString<M>),
    Violation,
>)
    ensures
        r is Ok,
        r matches Ok((o, c, s)) ==> {
            &&& o@.len() == actions@.len()
            &&& forall|k: int|
                0 <= k < o@.len() ==> o@[k] != Outcome::Diverged && ((o@[k] == Outcome::Faulted)
                    == action_faults(actions@[k], replay(constructed(constructor), actions@.take(k))))
            &&& c@ == replay(constructed(constructor), actions@)
            &&& invariants_hold(c@, s)
        },
{
    let ghost start = constructed(constructor);
    let ghost all = actions@;
    let (mut control, mut subject): (String, SmartString<M>) = constructor.construct();
    if let Some(failed) = assert_invariants(control.as_str(), &subject) {
        return Err(Violation { step: 0, invariant: failed });
    }
    let mut rest = actions;
    let mut outcomes: Vec<Outcome> = Vec::new();
    let n = rest.len();
    let mut k: usize = 0;
    assert(all.take(0) =~= Seq::<Action>::empty());
    while k < n
        invariant
            n == all.len(),
            k <= n,
            rest@ == all.skip(k as int),
            outcomes@.len() == k,
            subject.wf(),
            subject@ == control@,
            invariants_hold(control@, subject),
            control@ == replay(start, all.take(k as int)),
            forall|j: int|
                0 <= j < k ==> outcomes@[j] != Outcome::Diverged && ((outcomes@[j]
                    == Outcome::Faulted) == action_faults(all[j], replay(start, all.take(j)))),
        decreases n - k,
    {
        let action = rest.remove(0);
        assert(action == all[k as int]);
        let outcome = action.perform(&mut control, &mut subject);
        outcomes.push(outcome);
        assert(all.take(k + 1).drop_last() =~= all.take(k as int));
        assert(rest@ =~= all.skip(k + 1));
        k = k + 1;
        if let Some(failed) = assert_invariants(control.as_str(), &subject) {
            return Err(Violation { step: k, invariant: failed });
        }
    }
    assert(all.take(n as int) =~= all);
    Ok((outcomes, control, subject))
}

/// Runs `actions` after `constructor` as `execute` does, checking the
/// invariants after every step, and returns the outcome of each action.
pub fn test_everything<M: SmartStringMode>(constructor: Constructor, actions: Vec<Action>) -> (r:
    Result<Vec<Outcome>, Violation>)
    ensures
        r is Ok,
        r matches Ok(o) ==> o@.len() == actions@.len() && forall|k: int|
            0 <= k < o@.len() ==> o@[k] != Outcome::Diverged && ((o@[k] == Outcome::Faulted)
                == action_faults(actions@[k], replay(constructed(constructor), actions@.take(k)))),
{
    match execute::<M>(constructor, actions) {
        Ok((outcomes, _, _)) => Ok(outcomes),
        Err(v) => Err(v),
    }
}

/// Orders two texts as references and as subjects; returns the reference
/// order and the subject order.
pub fn test_ordering<M: SmartStringMode>(left: String, right: String) -> (r: (Ordering, Ordering))
    ensures
        r.0 == text_cmp(left@, right@),
        r.1 == text_cmp(left@, right@),
{
    let smart_left: SmartString<M> = SmartString::from_text(left.as_str());
    let smart_right: SmartString<M> = SmartString::from_text(right.as_str());
    (cmp_text(left.as_str(), right.as_str()), smart_left.cmp(&smart_right))
}

} // verus!
