use cirdean::candidates::{keep_distinct, unambiguous};

#[test]
fn repeated_views_keep_only_the_best_ranked_one() {
    let ranked = vec![0.0f32, 1.0, 60.0];
    let distinct = keep_distinct(ranked, |candidate, kept| (candidate - kept).abs() <= 4.0);
    assert_eq!(distinct, vec![0.0, 60.0]);
}

#[test]
fn a_hypothesis_is_compared_only_with_kept_ones() {
    // 5 duplicates 0 and is dropped; 9 is within 4 of the dropped 5 only.
    let distinct = keep_distinct(vec![0i32, 5, 9], |candidate, kept| (candidate - kept).abs() <= 5);
    assert_eq!(distinct, vec![0, 9]);
}

#[test]
fn nothing_ranked_nothing_kept() {
    let distinct = keep_distinct(Vec::<u8>::new(), |_, _| true);
    assert!(distinct.is_empty());
    assert_eq!(keep_distinct(vec![7u8, 7, 7], |_, _| true), vec![7]);
}

#[test]
fn competing_hypotheses_of_near_equal_score_abstain() {
    let near_tie = |best: f32, second: f32| best - second < 0.04;
    assert_eq!(unambiguous(&vec![0.98f32, 0.97], near_tie), None);
    assert_eq!(unambiguous(&vec![0.98f32, 0.90], near_tie), Some(0.98));
    assert_eq!(unambiguous(&vec![0.5f32], near_tie), Some(0.5));
    assert_eq!(unambiguous(&Vec::<f32>::new(), near_tie), None);
}
