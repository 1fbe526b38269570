//! Tests of the decision index that an audit log is searched through.

use ternary_explain::{DecisionIndex, DecisionRecord, TernaryAction};

fn sample() -> DecisionIndex {
    let mut idx = DecisionIndex::new();
    idx.log(1, 1000, TernaryAction::Positive);
    idx.log(2, 2000, TernaryAction::Negative);
    idx.log(3, 3000, TernaryAction::Positive);
    idx.log(4, 4000, TernaryAction::Neutral);
    idx
}

#[test]
fn test_index_empty() {
    let idx = DecisionIndex::new();
    assert!(idx.is_empty());
    assert_eq!(idx.len(), 0);
    assert_eq!(idx.position_of_id(1), None);
    assert!(idx.positions_with_action(TernaryAction::Positive).is_empty());
    assert_eq!(
        idx.action_distribution(),
        [
            (TernaryAction::Negative, 0),
            (TernaryAction::Neutral, 0),
            (TernaryAction::Positive, 0)
        ]
    );
}

#[test]
fn test_index_log_and_get_by_id() {
    let idx = sample();
    assert_eq!(idx.len(), 4);
    assert!(!idx.is_empty());
    assert_eq!(idx.position_of_id(1), Some(0));
    assert_eq!(idx.position_of_id(2), Some(1));
    assert_eq!(idx.get(1).action, TernaryAction::Negative);
    assert_eq!(idx.position_of_id(99), None);
    assert_eq!(
        idx.get(3),
        DecisionRecord { id: 4, timestamp: 4000, action: TernaryAction::Neutral }
    );
}

#[test]
fn test_index_duplicate_id_finds_first() {
    let mut idx = sample();
    idx.log(2, 9000, TernaryAction::Positive);
    assert_eq!(idx.position_of_id(2), Some(1));
    idx.log(7, 9500, TernaryAction::Neutral);
    assert_eq!(idx.position_of_id(7), Some(5));
}

#[test]
fn test_index_filter_by_action() {
    let idx = sample();
    assert_eq!(idx.positions_with_action(TernaryAction::Positive), vec![0, 2]);
    assert_eq!(idx.positions_with_action(TernaryAction::Negative), vec![1]);
    assert_eq!(idx.positions_with_action(TernaryAction::Neutral), vec![3]);
}

#[test]
fn test_index_distribution() {
    let idx = sample();
    let dist = idx.action_distribution();
    assert_eq!(dist[0], (TernaryAction::Negative, 1));
    assert_eq!(dist[1], (TernaryAction::Neutral, 1));
    assert_eq!(dist[2], (TernaryAction::Positive, 2));
    assert_eq!(dist[0].1 + dist[1].1 + dist[2].1, idx.len());
}

#[test]
fn test_index_filter_by_time_inclusive() {
    let idx = sample();
    assert_eq!(idx.positions_in_time_range(2000, 3000), vec![1, 2]);
    assert_eq!(idx.positions_in_time_range(0, 999), Vec::<usize>::new());
    assert_eq!(idx.positions_in_time_range(4000, 4000), vec![3]);
    assert_eq!(idx.positions_in_time_range(3001, 2000), Vec::<usize>::new());
}
