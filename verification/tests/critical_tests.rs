use ternary_dynamics::critical::{plateau_starts, sort_points_by_generation, CriticalKind, CriticalPoint};

fn point(generation: usize, kind: CriticalKind) -> CriticalPoint {
    CriticalPoint { generation, value_bits: (generation as f64).to_bits(), kind }
}

#[test]
fn plateau_scan_skips_past_each_plateau() {
    // windows 0..=5 of a 10-long series with window 5; windows 4 and 5 are flat
    let flat = vec![false, false, false, false, true, true];
    assert_eq!(plateau_starts(&flat, 5), vec![4]);
}

#[test]
fn plateau_scan_picks_non_overlapping_windows() {
    let flat = vec![true, true, true, false, true, true, true];
    assert_eq!(plateau_starts(&flat, 3), vec![0, 4]);
    assert_eq!(plateau_starts(&flat, 1), vec![0, 1, 2, 4, 5, 6]);
    assert_eq!(plateau_starts(&flat, 10), vec![0]);
}

#[test]
fn plateau_scan_without_flat_windows() {
    let flat = vec![false; 4];
    assert!(plateau_starts(&flat, 2).is_empty());
    assert!(plateau_starts(&flat, 0).is_empty());
    assert!(plateau_starts(&Vec::new(), 3).is_empty());
}

#[test]
fn points_sorted_stably_by_generation() {
    let mut points = vec![
        point(5, CriticalKind::FitnessPlateau),
        point(2, CriticalKind::DiversityCliff),
        point(5, CriticalKind::DiversityFloor),
        point(1, CriticalKind::AvoidanceSpike),
        point(2, CriticalKind::PopulationCrash),
    ];
    sort_points_by_generation(&mut points);
    let got: Vec<(usize, CriticalKind)> = points.iter().map(|p| (p.generation, p.kind)).collect();
    assert_eq!(
        got,
        vec![
            (1, CriticalKind::AvoidanceSpike),
            (2, CriticalKind::DiversityCliff),
            (2, CriticalKind::PopulationCrash),
            (5, CriticalKind::FitnessPlateau),
            (5, CriticalKind::DiversityFloor),
        ]
    );
    assert_eq!(f64::from_bits(points[0].value_bits), 1.0);
}
