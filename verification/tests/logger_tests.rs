use ternary_dynamics::logger::{GenerationLogger, GenerationSnapshot};
use ternary_dynamics::TernaryStrategy;

fn snap(generation: usize, counts: [usize; 3], fitness: f64, diversity: f64) -> GenerationSnapshot {
    GenerationSnapshot::new(generation, counts, fitness.to_bits(), diversity.to_bits())
}

#[test]
fn test_snapshot_creation() {
    let snap = snap(0, [10, 20, 30], 0.7, 0.6);
    assert_eq!(snap.total_population(), 60);
    assert!(snap.tag.is_none());
}

#[test]
fn test_snapshot_with_tag() {
    let snap = snap(5, [10, 10, 10], 0.5, 0.5).with_tag("mutation");
    assert_eq!(snap.tag.as_deref(), Some("mutation"));
}

#[test]
fn test_logger_record_and_retrieve() {
    let mut logger = GenerationLogger::new();
    logger.log(snap(0, [10, 10, 10], 0.5, 0.6));
    logger.log(snap(1, [5, 20, 5], 0.7, 0.4).with_tag("shift"));
    assert_eq!(logger.len(), 2);
    assert!(logger.get(0).is_some());
    assert!(logger.get(1).is_some());
    assert!(logger.get(99).is_none());
}

#[test]
fn test_logger_find_by_tag() {
    let mut logger = GenerationLogger::new();
    logger.log(snap(0, [10, 10, 10], 0.5, 0.6));
    logger.log(snap(1, [5, 20, 5], 0.7, 0.4).with_tag("event"));
    let tagged = logger.find_by_tag("event");
    assert_eq!(tagged.len(), 1);
    assert_eq!(tagged[0].generation, 1);
}

#[test]
fn test_logger_dominated_by() {
    let mut logger = GenerationLogger::new();
    logger.log(snap(0, [10, 60, 30], 0.7, 0.5)); // cooperate dominates
    logger.log(snap(1, [70, 20, 10], 0.5, 0.4)); // avoid dominates
    logger.log(snap(2, [30, 30, 40], 0.5, 0.6)); // no one dominates
    let coop = logger.dominated_by(TernaryStrategy::Cooperate);
    assert_eq!(coop.len(), 1);
    assert_eq!(coop[0].generation, 0);
}

#[test]
fn test_logger_export_counts() {
    let mut logger = GenerationLogger::new();
    logger.log(snap(0, [10, 20, 30], 0.5, 0.6));
    let (a, c, e) = logger.export_counts();
    assert_eq!(a, vec![10]);
    assert_eq!(c, vec![20]);
    assert_eq!(e, vec![30]);
}

// ---- further cases ----

#[test]
fn snapshot_keeps_float_values() {
    let s = snap(3, [1, 2, 3], 0.25, 0.75).with_tag("x");
    assert_eq!(f64::from_bits(s.avg_fitness_bits), 0.25);
    assert_eq!(f64::from_bits(s.diversity_bits), 0.75);
    assert_eq!(s.generation, 3);
    assert_eq!(s.strategy_counts, [1, 2, 3]);
}

#[test]
fn get_finds_first_of_duplicate_generations() {
    let mut logger = GenerationLogger::default();
    logger.log(snap(4, [1, 0, 0], 0.0, 0.0).with_tag("first"));
    logger.log(snap(4, [0, 1, 0], 0.0, 0.0).with_tag("second"));
    assert_eq!(logger.get(4).unwrap().tag.as_deref(), Some("first"));
    assert_eq!(logger.last().unwrap().tag.as_deref(), Some("second"));
}

#[test]
fn empty_logger() {
    let logger = GenerationLogger::new();
    assert!(logger.is_empty());
    assert!(logger.last().is_none());
    assert!(logger.get(0).is_none());
    assert_eq!(logger.summary(), (0, 0, 0));
    assert!(logger.find_by_tag("a").is_empty());
    let (a, c, e) = logger.export_counts();
    assert!(a.is_empty() && c.is_empty() && e.is_empty());
}

#[test]
fn summary_spans_first_to_last() {
    let mut logger = GenerationLogger::new();
    logger.log(snap(2, [1, 1, 1], 0.0, 0.0));
    logger.log(snap(9, [1, 1, 1], 0.0, 0.0));
    logger.log(snap(5, [1, 1, 1], 0.0, 0.0));
    assert_eq!(logger.summary(), (2, 5, 3));
}

#[test]
fn domination_needs_strictly_more_than_half() {
    let mut logger = GenerationLogger::new();
    logger.log(snap(0, [50, 50, 0], 0.0, 0.0)); // exactly half: no
    logger.log(snap(1, [51, 49, 0], 0.0, 0.0)); // just above half: yes
    logger.log(snap(2, [0, 0, 0], 0.0, 0.0)); // empty population: no
    logger.log(snap(3, [1, 0, 0], 0.0, 0.0)); // all avoid: yes
    let avoid: Vec<usize> = logger
        .dominated_by(TernaryStrategy::Avoid)
        .iter()
        .map(|s| s.generation)
        .collect();
    assert_eq!(avoid, vec![1, 3]);
    assert!(logger.dominated_by(TernaryStrategy::Exploit).is_empty());
}

#[test]
fn find_by_tag_keeps_order_and_skips_untagged() {
    let mut logger = GenerationLogger::new();
    logger.log(snap(0, [1, 1, 1], 0.0, 0.0).with_tag("a"));
    logger.log(snap(1, [1, 1, 1], 0.0, 0.0));
    logger.log(snap(2, [1, 1, 1], 0.0, 0.0).with_tag("b"));
    logger.log(snap(3, [1, 1, 1], 0.0, 0.0).with_tag("a"));
    let gens: Vec<usize> = logger.find_by_tag("a").iter().map(|s| s.generation).collect();
    assert_eq!(gens, vec![0, 3]);
    assert!(logger.find_by_tag("ab").is_empty());
}
