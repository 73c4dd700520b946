use ternary_dynamics::phase::{order_rolling_events, PhaseEvent};

fn ev(generation: usize, magnitude: f64, label: &str) -> PhaseEvent {
    PhaseEvent::new(generation, magnitude.to_bits(), label.to_string())
}

#[test]
fn new_event_keeps_fields() {
    let e = ev(3, 0.4, "phase shift at generation 3");
    assert_eq!(e.generation, 3);
    assert_eq!(f64::from_bits(e.magnitude_bits), 0.4);
    assert_eq!(e.label, "phase shift at generation 3");
}

#[test]
fn rolling_events_sorted_one_per_generation() {
    // found from the last generation backwards, as a rolling scan does
    let mut events = vec![ev(9, 0.3, "a"), ev(7, 0.2, "b"), ev(9, 0.5, "c"), ev(6, 0.1, "d"), ev(7, 0.9, "e")];
    order_rolling_events(&mut events);
    let got: Vec<(usize, String)> = events.iter().map(|e| (e.generation, e.label.clone())).collect();
    assert_eq!(
        got,
        vec![(6, "d".to_string()), (7, "b".to_string()), (9, "a".to_string())]
    );
}

#[test]
fn rolling_events_empty() {
    let mut events: Vec<PhaseEvent> = Vec::new();
    order_rolling_events(&mut events);
    assert!(events.is_empty());
}
