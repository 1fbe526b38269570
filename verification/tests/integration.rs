//! Tests of the ternary action type and the clock.

use ternary_explain::{Clock, TernaryAction};

#[test]
fn test_ternary_action_from_i8() {
    assert_eq!(TernaryAction::from_i8(-1), Some(TernaryAction::Negative));
    assert_eq!(TernaryAction::from_i8(0), Some(TernaryAction::Neutral));
    assert_eq!(TernaryAction::from_i8(1), Some(TernaryAction::Positive));
    assert_eq!(TernaryAction::from_i8(2), None);
    assert_eq!(TernaryAction::from_i8(-2), None);
}

#[test]
fn test_ternary_action_as_i8() {
    assert_eq!(TernaryAction::Negative.as_i8(), -1);
    assert_eq!(TernaryAction::Neutral.as_i8(), 0);
    assert_eq!(TernaryAction::Positive.as_i8(), 1);
}

#[test]
fn test_ternary_action_opposite() {
    assert_eq!(TernaryAction::Negative.opposite(), TernaryAction::Positive);
    assert_eq!(TernaryAction::Positive.opposite(), TernaryAction::Negative);
    assert_eq!(TernaryAction::Neutral.opposite(), TernaryAction::Neutral);
}

#[test]
fn test_clock() {
    let mut clock = Clock::new(1000);
    assert_eq!(clock.now(), 1000);
    let t1 = clock.tick(100);
    assert_eq!(t1, 1000);
    assert_eq!(clock.now(), 1100);
    let t2 = clock.tick(50);
    assert_eq!(t2, 1100);
}

#[test]
fn test_from_i8_rejects_extremes() {
    assert_eq!(TernaryAction::from_i8(i8::MIN), None);
    assert_eq!(TernaryAction::from_i8(i8::MAX), None);
}

#[test]
fn test_as_i8_from_i8_roundtrip() {
    for a in TernaryAction::all() {
        assert_eq!(TernaryAction::from_i8(a.as_i8()), Some(a));
    }
    for v in i8::MIN..=i8::MAX {
        if let Some(a) = TernaryAction::from_i8(v) {
            assert_eq!(a.as_i8(), v);
        }
    }
}

#[test]
fn test_opposite_flips_sign_and_is_involution() {
    for a in TernaryAction::all() {
        assert_eq!(a.opposite().as_i8(), -a.as_i8());
        assert_eq!(a.opposite().opposite(), a);
    }
}

#[test]
fn test_labels() {
    assert_eq!(TernaryAction::Negative.label(), "Negative (-1)");
    assert_eq!(TernaryAction::Neutral.label(), "Neutral (0)");
    assert_eq!(TernaryAction::Positive.label(), "Positive (+1)");
}

#[test]
fn test_all_in_value_order() {
    assert_eq!(
        TernaryAction::all(),
        [TernaryAction::Negative, TernaryAction::Neutral, TernaryAction::Positive]
    );
}

#[test]
fn test_others() {
    assert_eq!(
        TernaryAction::Negative.others(),
        [TernaryAction::Neutral, TernaryAction::Positive]
    );
    assert_eq!(
        TernaryAction::Neutral.others(),
        [TernaryAction::Negative, TernaryAction::Positive]
    );
    assert_eq!(
        TernaryAction::Positive.others(),
        [TernaryAction::Negative, TernaryAction::Neutral]
    );
}

#[test]
fn test_clock_default_and_zero_step() {
    let mut clock = Clock::default();
    assert_eq!(clock.now(), 1_700_000_000_000);
    assert_eq!(clock.tick(0), 1_700_000_000_000);
    assert_eq!(clock.now(), 1_700_000_000_000);
}

#[test]
fn test_clock_ticks_never_decrease() {
    let mut clock = Clock::new(5);
    let mut last = clock.now();
    for step in [0u64, 3, 0, 7, 1] {
        let t = clock.tick(step);
        assert!(t >= last);
        assert_eq!(clock.now(), t + step);
        last = t;
    }
}
