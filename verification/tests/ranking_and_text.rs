//! Tests of ranking by key, lookups and the text layout of explanations.

use ternary_explain::{
    format_explanation, position_of_action, position_of_name, rank_by_key_desc, Explanation,
    TernaryAction,
};

#[test]
fn test_rank_descending_and_stable() {
    let keys = vec![10u64, 30, 20, 30, 10];
    assert_eq!(rank_by_key_desc(&keys), vec![1, 3, 2, 0, 4]);
}

#[test]
fn test_rank_empty_and_single() {
    assert_eq!(rank_by_key_desc(&Vec::new()), Vec::<usize>::new());
    assert_eq!(rank_by_key_desc(&vec![5]), vec![0]);
}

#[test]
fn test_rank_all_equal_keeps_order() {
    assert_eq!(rank_by_key_desc(&vec![7, 7, 7, 7]), vec![0, 1, 2, 3]);
}

#[test]
fn test_rank_ascending_input_is_reversed() {
    assert_eq!(rank_by_key_desc(&vec![1, 2, 3, 4]), vec![3, 2, 1, 0]);
}

#[test]
fn test_position_of_action() {
    let actions = vec![TernaryAction::Negative, TernaryAction::Neutral, TernaryAction::Neutral];
    assert_eq!(position_of_action(&actions, TernaryAction::Neutral), Some(1));
    assert_eq!(position_of_action(&actions, TernaryAction::Negative), Some(0));
    assert_eq!(position_of_action(&actions, TernaryAction::Positive), None);
}

#[test]
fn test_position_of_name() {
    let names = vec!["rsi".to_string(), "volume".to_string(), "rsi".to_string()];
    assert_eq!(position_of_name(&names, &"rsi".to_string()), Some(0));
    assert_eq!(position_of_name(&names, &"volume".to_string()), Some(1));
    assert_eq!(position_of_name(&names, &"price".to_string()), None);
}

#[test]
fn test_format_explanation_lines() {
    let e = Explanation {
        decision_id: 7,
        summary: "Decision #7: chose Neutral (0).".to_string(),
        details: vec!["Context: test".to_string(), "Decision margin: 0.2000".to_string()],
        is_close_call: false,
    };
    assert_eq!(
        format_explanation(&e),
        "Decision #7: chose Neutral (0).\nContext: test\nDecision margin: 0.2000"
    );
}

#[test]
fn test_format_explanation_summary_only() {
    let e = Explanation {
        decision_id: 1,
        summary: "only".to_string(),
        details: vec![],
        is_close_call: true,
    };
    assert_eq!(format_explanation(&e), "only");
}

#[test]
fn test_rank_larger_input_with_ties() {
    let keys: Vec<u64> = (0..200u64).map(|i| (i * 37) % 11).collect();
    let order = rank_by_key_desc(&keys);
    assert_eq!(order.len(), keys.len());
    let mut expected: Vec<usize> = (0..keys.len()).collect();
    expected.sort_by(|&a, &b| keys[b].cmp(&keys[a]));
    assert_eq!(order, expected);
}
