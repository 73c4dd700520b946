use ternary_dynamics::trajectory::{Strategy, Trajectory};
use ternary_dynamics::TernaryStrategy;

#[test]
fn test_trajectory_creation() {
    let t = Trajectory::new(42);
    assert_eq!(t.agent_id, 42);
    assert!(t.is_empty());
}

#[test]
fn test_adopt_and_retrieve() {
    let mut t = Trajectory::new(1);
    t.adopt(TernaryStrategy::Cooperate, 0);
    t.adopt(TernaryStrategy::Exploit, 5);
    t.adopt(TernaryStrategy::Avoid, 10);
    assert_eq!(t.strategy_at(0), Some(TernaryStrategy::Cooperate));
    assert_eq!(t.strategy_at(3), Some(TernaryStrategy::Cooperate));
    assert_eq!(t.strategy_at(5), Some(TernaryStrategy::Exploit));
    assert_eq!(t.strategy_at(9), Some(TernaryStrategy::Exploit));
    assert_eq!(t.strategy_at(10), Some(TernaryStrategy::Avoid));
    assert_eq!(t.strategy_at(100), Some(TernaryStrategy::Avoid));
}

#[test]
fn test_strategy_before_any_adoption() {
    let mut t = Trajectory::new(1);
    t.adopt(TernaryStrategy::Cooperate, 5);
    assert_eq!(t.strategy_at(3), None); // before first adoption
}

#[test]
fn test_transition_count() {
    let mut t = Trajectory::new(1);
    t.adopt(TernaryStrategy::Cooperate, 0);
    t.adopt(TernaryStrategy::Exploit, 5);
    t.adopt(TernaryStrategy::Avoid, 10);
    assert_eq!(t.transition_count(), 2);
}

#[test]
fn test_no_transitions_when_same_strategy() {
    let mut t = Trajectory::new(1);
    t.adopt(TernaryStrategy::Cooperate, 0);
    t.adopt(TernaryStrategy::Cooperate, 5);
    assert_eq!(t.transition_count(), 0);
}

#[test]
fn test_is_loyal() {
    let mut t = Trajectory::new(1);
    t.adopt(TernaryStrategy::Cooperate, 0);
    assert!(t.is_loyal());

    t.adopt(TernaryStrategy::Exploit, 5);
    assert!(!t.is_loyal());
}

#[test]
fn test_is_oscillator() {
    let mut t = Trajectory::new(1);
    t.adopt(TernaryStrategy::Cooperate, 0);
    t.adopt(TernaryStrategy::Exploit, 5);
    t.adopt(TernaryStrategy::Cooperate, 10); // switches back
    assert!(t.is_oscillator());
}

#[test]
fn test_not_oscillator() {
    let mut t = Trajectory::new(1);
    t.adopt(TernaryStrategy::Cooperate, 0);
    t.adopt(TernaryStrategy::Exploit, 5);
    t.adopt(TernaryStrategy::Avoid, 10);
    assert!(!t.is_oscillator());
}

#[test]
fn test_strategy_durations() {
    let mut t = Trajectory::new(1);
    t.adopt(TernaryStrategy::Cooperate, 0);
    t.adopt(TernaryStrategy::Avoid, 10);
    t.adopt(TernaryStrategy::Exploit, 15);
    let dur = t.strategy_durations();
    // Cooperate from 0 to 10 = 10, Avoid from 10 to 15 = 5
    assert_eq!(dur[0], 5); // Avoid: 15-10
    assert_eq!(dur[1], 10); // Cooperate: 10-0
}

#[test]
fn test_replace_at_same_generation() {
    let mut t = Trajectory::new(1);
    t.adopt(TernaryStrategy::Cooperate, 5);
    t.adopt(TernaryStrategy::Avoid, 5); // replaces
    assert_eq!(t.len(), 1);
    assert_eq!(t.strategy_at(5), Some(TernaryStrategy::Avoid));
}

// ---- further cases ----

#[test]
fn adopt_out_of_order_keeps_generations_sorted() {
    let mut t = Trajectory::new(7);
    t.adopt(TernaryStrategy::Avoid, 10);
    t.adopt(TernaryStrategy::Cooperate, 2);
    t.adopt(TernaryStrategy::Exploit, 6);
    let gens: Vec<usize> = t.history.iter().map(|s| s.generation).collect();
    assert_eq!(gens, vec![2, 6, 10]);
    assert_eq!(t.first_generation(), Some(2));
    assert_eq!(t.first_strategy(), Some(TernaryStrategy::Cooperate));
    assert_eq!(t.current_strategy(), Some(TernaryStrategy::Avoid));
    assert_eq!(t.agent_id, 7);
}

#[test]
fn adopt_then_read_back_and_past_unchanged() {
    let mut t = Trajectory::new(1);
    t.adopt(TernaryStrategy::Cooperate, 0);
    t.adopt(TernaryStrategy::Exploit, 8);
    let before = t.strategy_at(4);
    t.adopt(TernaryStrategy::Avoid, 6);
    assert_eq!(t.strategy_at(6), Some(TernaryStrategy::Avoid));
    assert_eq!(t.strategy_at(4), before);
    assert_eq!(t.strategy_at(7), Some(TernaryStrategy::Avoid));
    assert_eq!(t.strategy_at(8), Some(TernaryStrategy::Exploit));
}

#[test]
fn adopt_on_unsorted_history_sorts_stably() {
    let mut t = Trajectory::new(1);
    t.history = vec![
        Strategy::new(TernaryStrategy::Exploit, 9),
        Strategy::new(TernaryStrategy::Avoid, 3),
        Strategy::new(TernaryStrategy::Cooperate, 9),
    ];
    t.adopt(TernaryStrategy::Cooperate, 4);
    assert_eq!(
        t.history,
        vec![
            Strategy::new(TernaryStrategy::Avoid, 3),
            Strategy::new(TernaryStrategy::Cooperate, 4),
            Strategy::new(TernaryStrategy::Exploit, 9),
            Strategy::new(TernaryStrategy::Cooperate, 9),
        ]
    );
}

#[test]
fn empty_trajectory_queries() {
    let t = Trajectory::new(3);
    assert_eq!(t.len(), 0);
    assert_eq!(t.strategy_at(0), None);
    assert_eq!(t.transition_count(), 0);
    assert_eq!(t.first_strategy(), None);
    assert_eq!(t.current_strategy(), None);
    assert_eq!(t.first_generation(), None);
    assert_eq!(t.strategy_durations(), [0, 0, 0]);
    assert!(!t.is_loyal());
    assert!(!t.is_oscillator());
}

#[test]
fn durations_add_up_to_span() {
    let mut t = Trajectory::new(1);
    t.adopt(TernaryStrategy::Exploit, 3);
    t.adopt(TernaryStrategy::Cooperate, 4);
    t.adopt(TernaryStrategy::Exploit, 11);
    t.adopt(TernaryStrategy::Avoid, 20);
    let d = t.strategy_durations();
    assert_eq!(d, [0, 7, 10]);
    assert_eq!(d[0] + d[1] + d[2], 20 - 3);
}

#[test]
fn repeated_strategy_is_loyal_not_oscillator() {
    let mut t = Trajectory::new(1);
    t.adopt(TernaryStrategy::Avoid, 0);
    t.adopt(TernaryStrategy::Avoid, 1);
    t.adopt(TernaryStrategy::Avoid, 2);
    assert!(t.is_loyal());
    assert!(!t.is_oscillator());
}

#[test]
fn oscillator_after_a_run() {
    let mut t = Trajectory::new(1);
    t.adopt(TernaryStrategy::Avoid, 0);
    t.adopt(TernaryStrategy::Avoid, 1);
    t.adopt(TernaryStrategy::Exploit, 2);
    t.adopt(TernaryStrategy::Avoid, 3);
    assert!(t.is_oscillator());
    assert!(t.transition_count() >= 2);
    assert!(!t.is_loyal());
}

#[test]
fn adopting_twice_changes_nothing_more() {
    let mut t = Trajectory::new(1);
    t.adopt(TernaryStrategy::Cooperate, 0);
    t.adopt(TernaryStrategy::Exploit, 4);
    t.adopt(TernaryStrategy::Avoid, 2);
    let once = t.history.clone();
    t.adopt(TernaryStrategy::Avoid, 2);
    assert_eq!(t.history, once);
}

#[test]
fn strategy_at_after_last_and_before_first() {
    let mut t = Trajectory::new(1);
    t.adopt(TernaryStrategy::Exploit, 3);
    t.adopt(TernaryStrategy::Cooperate, 7);
    assert_eq!(t.strategy_at(usize::MAX), t.current_strategy());
    assert_eq!(t.strategy_at(2), None);
}

#[test]
fn length_counts_distinct_generations() {
    let mut t = Trajectory::new(1);
    let steps = [
        (TernaryStrategy::Avoid, 8),
        (TernaryStrategy::Cooperate, 3),
        (TernaryStrategy::Exploit, 8),
        (TernaryStrategy::Avoid, 5),
        (TernaryStrategy::Cooperate, 3),
        (TernaryStrategy::Exploit, 1),
    ];
    for (s, g) in steps {
        t.adopt(s, g);
    }
    assert_eq!(t.len(), 4); // generations 1, 3, 5, 8
    assert!(t.len() <= steps.len());
    let gens: Vec<usize> = t.history.iter().map(|s| s.generation).collect();
    assert_eq!(gens, vec![1, 3, 5, 8]);
    assert_eq!(t.strategy_at(8), Some(TernaryStrategy::Exploit));
    assert_eq!(t.strategy_at(3), Some(TernaryStrategy::Cooperate));
}
