//! Tests of the audit trail that keeps items with their records.

use ternary_explain::{DecisionLog, TernaryAction};

fn sample() -> DecisionLog<&'static str> {
    let mut log = DecisionLog::new();
    log.log(1, 1000, TernaryAction::Positive, "first");
    log.log(2, 2000, TernaryAction::Negative, "second");
    log.log(3, 3000, TernaryAction::Positive, "third");
    log.log(4, 4000, TernaryAction::Neutral, "fourth");
    log
}

#[test]
fn test_log_empty() {
    let log: DecisionLog<String> = DecisionLog::new();
    assert!(log.is_empty());
    assert_eq!(log.len(), 0);
    assert!(log.get_by_id(1).is_none());
    assert!(log.items().is_empty());
}

#[test]
fn test_log_items_in_order_and_get_by_id() {
    let log = sample();
    assert_eq!(log.len(), 4);
    assert_eq!(log.items(), &["first", "second", "third", "fourth"]);
    assert_eq!(log.get_by_id(2), Some(&"second"));
    assert_eq!(log.get_by_id(9), None);
}

#[test]
fn test_log_duplicate_id_gives_first_item() {
    let mut log = sample();
    log.log(3, 5000, TernaryAction::Negative, "again");
    assert_eq!(log.get_by_id(3), Some(&"third"));
}

#[test]
fn test_log_filters() {
    let log = sample();
    assert_eq!(log.filter_by_action(TernaryAction::Positive), vec![&"first", &"third"]);
    assert_eq!(log.filter_by_action(TernaryAction::Neutral), vec![&"fourth"]);
    assert_eq!(log.filter_by_time(2000, 3000), vec![&"second", &"third"]);
    assert!(log.filter_by_time(4001, 9000).is_empty());
}

#[test]
fn test_log_distribution_and_clone() {
    let log = sample();
    let copy = log.clone();
    assert_eq!(
        copy.action_distribution(),
        [
            (TernaryAction::Negative, 1),
            (TernaryAction::Neutral, 1),
            (TernaryAction::Positive, 2)
        ]
    );
    assert_eq!(copy.items(), log.items());
}
