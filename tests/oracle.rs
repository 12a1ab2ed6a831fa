use sso_oracle::bounds::TestBounds;
use sso_oracle::mode::{Compact, Prefixed, SmartStringMode};
use sso_oracle::oracle::{
    assert_invariants, execute, test_everything, test_ordering, Action, Constructor, Invariant,
    Outcome,
};
use sso_oracle::smart::SmartString;
use std::cmp::Ordering;

#[test]
fn must_panic_on_insert_outside_char_boundary() {
    let r = test_everything::<Prefixed>(
        Constructor::FromString("a0 A୦a\u{2de0}0 🌀Aa".to_string()),
        vec![
            Action::Push(' '),
            Action::Push('¡'),
            Action::Pop,
            Action::Pop,
            Action::Push('¡'),
            Action::Pop,
            Action::Push('𐀀'),
            Action::Push('\u{e000}'),
            Action::Pop,
            Action::Insert(14, 'A'),
        ],
    );
    let outcomes = r.unwrap();
    assert_eq!(outcomes.len(), 10);
    assert_eq!(outcomes[9], Outcome::Faulted);
    assert!(outcomes[..9].iter().all(|o| *o == Outcome::Completed));
}

#[test]
fn must_panic_on_out_of_bounds_range() {
    let r = test_everything::<Prefixed>(
        Constructor::New,
        vec![Action::Slice(TestBounds::Range(0, 13764126361151078400))],
    );
    assert_eq!(r.unwrap(), vec![Outcome::Faulted]);
}

#[test]
fn must_not_promote_before_insert_succeeds() {
    let r = test_everything::<Prefixed>(
        Constructor::FromString("ኲΣ A𑒀a ®Σ a0🠀  aA®A".to_string()),
        vec![Action::Insert(21, ' ')],
    );
    assert_eq!(r.unwrap(), vec![Outcome::Faulted]);
}

#[test]
fn must_panic_on_slice_outside_char_boundary() {
    let r = test_everything::<Prefixed>(
        Constructor::New,
        vec![Action::Push('Ь'), Action::Slice(TestBounds::ToInclusive(0))],
    );
    assert_eq!(r.unwrap(), vec![Outcome::Completed, Outcome::Faulted]);
}

#[test]
fn must_compare_correctly_with_different_fragment_char_counts() {
    let (reference, subject) = test_ordering::<Prefixed>("\u{1b}\u{7be}\nJ\\#\u{7be}J\\\no\u{7be}\n\n[\n\u{2}\n\n\u{11}C\u{0}\u{0}\u{0}A\n\n[\n\u{2}\n\n\u{11}C\u{0}A\n\u{1a}\n\u{7be}JC\u{11}\u{10}C\u{0}[\u{2}\u{1b}\u{7be}\nJ\\XX".to_string(),
        "\u{1b}\u{7be}\nJ\\\u{7be}\n\n[\n\u{2}\n\n\u{11}C\u{0}\u{0}\u{0}A\n\n[\n\u{2}\n\n\u{11}C\u{0}A\n\u{1a}\n\u{7be}JC\u{11}\u{10}C\u{0}[\u{2}\u{1b}\u{7be}\nJ\\XX\u{1b}\u{7be}\nJ\\#\u{7be}J\\\no\u{7be}\n\n[\n\u{2}\n\n\u{11}C\u{0}\u{0}\u{0}A\n\n[\n\u{2}\n\n\u{11}C\u{0}A\n\u{1a}\n\u{7be}JC\u{11}\u{10}C\u{0}[\u{2}\u{1b}\u{7be}\nJ\\XXXXXXXXX\u{1f}\u{1f}\u{1f}\u{1f}\u{1f}\u{1f}\u{1f}\u{1f}\u{1f}\u{1f}\u{1f}\u{1f}\u{1f}\u{1f}\u{1f}\u{1f}\u{1f}\u{1f}\u{1f}\u{1f}\u{1f}\u{1f}\u{1f}\u{1f}\u{1f}\u{1f}\u{1f}\u{1f}\u{1f}\u{1f}\u{1f}\u{1f}\u{1f}\u{1f}\u{1f}\u{1f}\u{1f}\u{1f}\u{1f}\u{1f}\u{1f}\u{1f}\u{1f}\u{1f}\u{1f}\u{1f}\u{1f}\u{1f}\u{1f}\u{1f}\u{1f}\u{1f}\u{1f}\u{1f}\u{1f}\u{1f}\u{1f}\u{1f}\u{1f}\u{1f}\u{1f}\u{1f}\u{1f}\u{1f}\u{1f}\u{1f}\u{1f}\u{1f}XXXXXXXXXXXXXXXXXXXXXXXXX".to_string());
    assert_eq!(reference, subject);
    assert_eq!(subject, Ordering::Less);
}

#[test]
fn dont_panic_when_inserting_a_string_at_exactly_inline_capacity() {
    let string: String = (0..Compact::max_inline()).map(|_| '\u{0}').collect();
    let r = test_everything::<Compact>(Constructor::New, vec![Action::InsertStr(0, string)]);
    assert_eq!(r.unwrap(), vec![Outcome::Completed]);
}

#[test]
fn string_drain_overflow() {
    assert!(TestBounds::ToInclusive(usize::MAX).should_panic(""));
}

#[test]
fn to_inclusive_max_faults_on_non_empty_text() {
    assert!(TestBounds::ToInclusive(usize::MAX).should_panic("מ"));
    assert!(TestBounds::Inclusive(0, usize::MAX).should_panic("מ∢∢"));
    assert!(!TestBounds::ToInclusive(1).should_panic("מ"));
}

#[test]
fn bounds_predicate_per_shape() {
    let t = "aЬc";
    assert!(!TestBounds::Range(0, 3).should_panic(t));
    assert!(TestBounds::Range(0, 2).should_panic(t));
    assert!(TestBounds::Range(3, 1).should_panic(t));
    assert!(TestBounds::Range(0, 5).should_panic(t));
    assert!(!TestBounds::From(1).should_panic(t));
    assert!(TestBounds::From(2).should_panic(t));
    assert!(TestBounds::From(5).should_panic(t));
    assert!(!TestBounds::To(4).should_panic(t));
    assert!(TestBounds::To(2).should_panic(t));
    assert!(!TestBounds::Full.should_panic(t));
    assert!(!TestBounds::Full.should_panic(""));
    assert!(!TestBounds::Inclusive(1, 2).should_panic(t));
    assert!(TestBounds::Inclusive(1, 1).should_panic(t));
    assert!(TestBounds::Inclusive(2, 1).should_panic(t));
    assert!(!TestBounds::ToInclusive(3).should_panic(t));
    assert!(TestBounds::ToInclusive(4).should_panic(t));
    assert!(TestBounds::ToInclusive(0).should_panic("Ь"));
}

#[test]
fn slices_agree_when_valid() {
    let t = "aЬc";
    let s = SmartString::<Compact>::from_text(t);
    assert!(TestBounds::Range(1, 3).assert_range(t, &s));
    assert!(TestBounds::Inclusive(0, 2).assert_range(t, &s));
    assert!(TestBounds::ToInclusive(3).assert_range(t, &s));
    let other = SmartString::<Compact>::from_text("xЬc");
    assert!(!TestBounds::Full.assert_range(t, &other));
    assert!(TestBounds::From(1).assert_range(t, &other));
    assert!(!TestBounds::To(1).assert_range(t, &other));
    let longer = SmartString::<Compact>::from_text("aЬcd");
    assert!(!TestBounds::From(1).assert_range(t, &longer));
    assert!(TestBounds::Range(0, 4).assert_range(t, &longer));
    assert_eq!(s.slice(1, 3), "Ь");
    assert_eq!(s.slice(3, 4), "c");
}

#[test]
fn point_operation_faults() {
    let r = test_everything::<Compact>(
        Constructor::FromStringSlice("Ьx".to_string()),
        vec![
            Action::Truncate(1),
            Action::Truncate(9),
            Action::Remove(1),
            Action::Remove(3),
            Action::Insert(4, 'y'),
            Action::InsertStr(1, "q".to_string()),
            Action::SplitOff(1),
            Action::SplitOff(4),
            Action::Remove(2),
            Action::SplitOff(2),
        ],
    );
    assert_eq!(
        r.unwrap(),
        vec![
            Outcome::Faulted,
            Outcome::Completed,
            Outcome::Faulted,
            Outcome::Faulted,
            Outcome::Faulted,
            Outcome::Faulted,
            Outcome::Faulted,
            Outcome::Faulted,
            Outcome::Completed,
            Outcome::Completed,
        ]
    );
}

#[test]
fn every_action_completes_on_valid_input() {
    let r = test_everything::<Prefixed>(
        Constructor::FromString("héllo".to_string()),
        vec![
            Action::Slice(TestBounds::Full),
            Action::PushStr(" wörld, and a little more".to_string()),
            Action::Retain("hélo wörd".to_string()),
            Action::IntoString,
            Action::Insert(0, '¡'),
            Action::Remove(0),
            Action::Clear,
            Action::Pop,
        ],
    );
    assert_eq!(r.unwrap(), vec![Outcome::Completed; 8]);
}

#[test]
fn subject_operations_match_reference() {
    let mut s = SmartString::<Compact>::from_string("héllo".to_string());
    assert_eq!(s.len(), 6);
    s.push('!');
    s.push_str("ab");
    assert_eq!(s.as_str(), "héllo!ab");
    assert_eq!(s.pop(), Some('b'));
    assert_eq!(s.remove(1), 'é');
    assert_eq!(s.as_str(), "hllo!a");
    s.insert(1, 'Ь');
    s.insert_str(0, "<<");
    assert_eq!(s.as_str(), "<<hЬllo!a");
    let rest = s.split_off(3);
    assert_eq!(rest.as_str(), "Ьllo!a");
    assert_eq!(s.as_str(), "<<h");
    s.truncate(1);
    assert_eq!(s.as_str(), "<");
    let mut t = SmartString::<Prefixed>::from_text("banana");
    t.retain("an");
    assert_eq!(t.as_str(), "anana");
    t.clear();
    assert_eq!(t.pop(), None);
    assert_eq!(t.clone().into_string(), String::new());
}

#[test]
fn inline_threshold_per_mode() {
    let c23 = SmartString::<Compact>::from_text(&"x".repeat(23));
    let c24 = SmartString::<Compact>::from_text(&"x".repeat(24));
    assert!(c23.is_inline());
    assert!(!c24.is_inline());
    let p22 = SmartString::<Prefixed>::from_text(&"x".repeat(22));
    let mut p23 = SmartString::<Prefixed>::from_text(&"x".repeat(23));
    assert!(p22.is_inline());
    assert!(!p23.is_inline());
    p23.pop();
    assert!(p23.is_inline());
    assert_eq!(Compact::max_inline(), 23);
    assert_eq!(Prefixed::max_inline(), 22);
}

#[test]
fn ordering_is_by_bytes() {
    let a = SmartString::<Compact>::from_text("abc");
    let b = SmartString::<Compact>::from_text("abd");
    let c = SmartString::<Compact>::from_text("ab");
    assert_eq!(a.cmp(&b), Ordering::Less);
    assert_eq!(b.cmp(&a), Ordering::Greater);
    assert_eq!(c.cmp(&a), Ordering::Less);
    assert_eq!(a.cmp(&a.clone()), Ordering::Equal);
    assert_eq!(a.cmp_str("ordering test"), Ordering::Less);
    assert_eq!(
        test_ordering::<Compact>("z".to_string(), "é".to_string()),
        (Ordering::Less, Ordering::Less)
    );
    assert_eq!(
        test_ordering::<Prefixed>("a".repeat(40), String::new()),
        (Ordering::Greater, Ordering::Greater)
    );
    assert_eq!(
        test_ordering::<Compact>("a".repeat(10), "a".repeat(30)),
        (Ordering::Less, Ordering::Less)
    );
}

#[test]
fn invariants_hold_and_detect_mismatch() {
    let s = SmartString::<Compact>::from_text("same");
    assert_eq!(assert_invariants("same", &s), None);
    assert_eq!(assert_invariants("other", &s), Some(Invariant::Content));
}

#[test]
fn rederived_subject_compares_equal() {
    let live = SmartString::<Prefixed>::from_string("a longer text that is boxed".to_string());
    let rebuilt = SmartString::<Prefixed>::from_text(live.as_str());
    assert_eq!(live.cmp(&rebuilt), Ordering::Equal);
}

#[test]
fn capacity_equal_insert_is_valid_in_both_modes() {
    let s: String = (0..Prefixed::max_inline()).map(|_| 'a').collect();
    let r = test_everything::<Prefixed>(Constructor::New, vec![Action::InsertStr(0, s)]);
    assert_eq!(r.unwrap(), vec![Outcome::Completed]);
}

#[test]
fn execute_returns_final_pair() {
    let r = execute::<Compact>(
        Constructor::FromString("abc".to_string()),
        vec![Action::Push('é'), Action::SplitOff(1), Action::Truncate(7)],
    );
    let (outcomes, control, subject) = r.unwrap();
    assert_eq!(outcomes, vec![Outcome::Completed; 3]);
    assert_eq!(control, "a");
    assert_eq!(subject.as_str(), "a");
    assert!(subject.is_inline());
}
