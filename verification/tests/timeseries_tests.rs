use ternary_dynamics::timeseries::{PopulationMetrics, TimeSeries};

// The metrics of a population with the given strategy counts, as the
// population analysis computes them (Simpson diversity, weighted fitness).
fn metrics(avoid: usize, cooperate: usize, exploit: usize) -> PopulationMetrics {
    let total = avoid + cooperate + exploit;
    let t = total as f64;
    let counts = [avoid, cooperate, exploit];
    let mut d = 1.0;
    for &c in &counts {
        let p = c as f64 / t;
        d -= p * p;
    }
    let fitness = (cooperate as f64 * 1.0 + avoid as f64 * 0.5 + exploit as f64 * 0.3) / t;
    PopulationMetrics {
        fitness_bits: fitness.to_bits(),
        diversity_bits: d.to_bits(),
        avoidance_ratio_bits: (avoid as f64 / t).to_bits(),
        population_size: total,
        strategy_counts: counts,
    }
}

#[test]
fn test_timeseries_record_and_get() {
    let mut ts = TimeSeries::new();
    ts.record(0, metrics(10, 10, 10));
    ts.record(1, metrics(5, 20, 5));
    assert_eq!(ts.len(), 2);
    assert!(ts.get(0).is_some());
    assert!(ts.get(1).is_some());
    assert!(ts.get(99).is_none());
}

#[test]
fn get_returns_the_recorded_metrics() {
    let mut ts = TimeSeries::new();
    assert!(ts.is_empty());
    assert!(ts.last().is_none());
    ts.record(3, metrics(1, 2, 3));
    ts.record(8, metrics(4, 0, 0));
    assert_eq!(ts.get(8).unwrap().population_size, 4);
    assert_eq!(ts.get(3).unwrap().strategy_counts, [1, 2, 3]);
    assert_eq!(ts.last().unwrap().strategy_counts, [4, 0, 0]);
    assert!(!ts.is_empty());
}

#[test]
fn get_with_labels_longer_than_metrics() {
    let mut ts = TimeSeries::new();
    ts.record(0, metrics(1, 1, 1));
    ts.generations.push(5);
    assert!(ts.get(5).is_none());
    assert_eq!(ts.len(), 1);
}

#[test]
fn get_takes_first_of_repeated_label() {
    let mut ts = TimeSeries::new();
    ts.record(2, metrics(1, 0, 0));
    ts.record(2, metrics(0, 1, 0));
    assert_eq!(ts.get(2).unwrap().strategy_counts, [1, 0, 0]);
}
