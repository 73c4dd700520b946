use ternary_dynamics::dynamic_mode::{majority_vote, DynamicMode};
use DynamicMode::{Chaotic, Converging, Oscillating, Stable};

#[test]
fn mode_names() {
    assert_eq!(DynamicMode::Converging.to_string(), "converging");
    assert_eq!(DynamicMode::Oscillating.to_string(), "oscillating");
    assert_eq!(DynamicMode::Chaotic.to_string(), "chaotic");
    assert_eq!(DynamicMode::Stable.to_string(), "stable");
}

#[test]
fn vote_all_agree() {
    let m = DynamicMode::Chaotic;
    assert_eq!(majority_vote([m, m, m]), m);
}

#[test]
fn vote_two_of_three() {
    assert_eq!(majority_vote([Stable, Converging, Converging]), Converging);
    assert_eq!(majority_vote([Converging, Stable, Converging]), Converging);
    assert_eq!(majority_vote([Converging, Converging, Stable]), Converging);
}

#[test]
fn vote_all_differ_takes_first() {
    assert_eq!(majority_vote([Oscillating, Stable, Chaotic]), Oscillating);
    assert_eq!(majority_vote([Chaotic, Oscillating, Converging]), Chaotic);
}
