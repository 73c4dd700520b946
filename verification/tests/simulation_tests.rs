use ternary_dynamics::{Simulation, TriVal};

#[test]
fn new_simulation_is_empty() {
    let s = Simulation::new();
    assert!(s.nodes.is_empty());
    assert!(s.gates.is_empty());
    assert_eq!(s.time, 0);
    let d = Simulation::default();
    assert_eq!(d.time, 0);
}

#[test]
fn add_node_hands_out_positions() {
    let mut s = Simulation::new();
    assert_eq!(s.add_node(TriVal::True, 5), 0);
    assert_eq!(s.add_node(TriVal::Unknown, 0), 1);
    assert_eq!(s.add_node(TriVal::False, 7), 2);
    for (i, n) in s.nodes.iter().enumerate() {
        assert_eq!(n.id, i);
    }
    assert_eq!(s.nodes[2].value, TriVal::False);
    assert_eq!(s.nodes[2].delay_ns, 7);
    assert_eq!(s.time, 0);
}

#[test]
fn step_and_run_advance_time() {
    let mut s = Simulation::new();
    assert_eq!(s.step(), 1);
    assert_eq!(s.step(), 2);
    s.run(10);
    assert_eq!(s.time, 12);
    s.run(0);
    assert_eq!(s.time, 12);
}
