//! Dynamic ternary logic simulation engine, with tools for analysing the
//! strategy dynamics of ternary agent populations.
use vstd::prelude::*;

pub mod critical;
pub mod dynamic_mode;
pub mod generation_order;
pub mod logger;
pub mod phase;
pub mod timeseries;
pub mod trajectory;

pub use critical::{CriticalKind, CriticalPoint};
pub use dynamic_mode::{majority_vote, DynamicMode};
pub use logger::{GenerationLogger, GenerationSnapshot};
pub use phase::PhaseEvent;
pub use timeseries::{PopulationMetrics, TimeSeries};
pub use trajectory::{Strategy, Trajectory};

verus! {

/// The three strategies an agent of a ternary population can play.
#[derive(Debug, Clone, Copy, PartialEq, Eq, Hash, Structural)]
pub enum TernaryStrategy {
    Avoid,
    Cooperate,
    Exploit,
}

/// Ternary value used in dynamic simulation
#[derive(Debug, Clone, Copy, PartialEq, Eq, Structural)]
pub enum TriVal {
    False,
    Unknown,
    True,
}

/// A simulation node with optional propagation delay
#[derive(Debug, Clone, Copy, PartialEq, Eq, Structural)]
pub struct SimNode {
    pub id: usize,
    pub value: TriVal,
    pub delay_ns: u64,
}

/// A gate connecting inputs to an output node
#[derive(Debug, Clone)]
pub struct SimGate {
    pub gate_type: GateType,
    pub inputs: Vec<usize>,
    pub output: usize,
}

#[derive(Debug, Clone, Copy, PartialEq, Eq, Structural)]
pub enum GateType {
    And,
    Or,
    Not,
    Majority,
}

/// Simulation engine
pub struct Simulation {
    pub nodes: Vec<SimNode>,
    pub gates: Vec<SimGate>,
    pub time: u64,
}

impl Simulation {
    /// Every node's `id` is its position in `nodes`, as `add_node` hands them out.
    pub open spec fn ids_are_positions(&self) -> bool {
        forall|i: int| 0 <= i < self.nodes@.len() ==> #[trigger] self.nodes@[i].id == i
    }

    pub fn new() -> (s: Self)
        ensures
            s.nodes@ == Seq::<SimNode>::empty(),
            s.gates@ == Seq::<SimGate>::empty(),
            s.time == 0,
    {
        Simulation { nodes: Vec::new(), gates: Vec::new(), time: 0 }
    }

    /// Adds a node and returns its id, which is the number of nodes before the call.
    pub fn add_node(&mut self, value: TriVal, delay_ns: u64) -> (id: usize)
        ensures
            id == old(self).nodes@.len(),
            final(self).nodes@ == old(self).nodes@.push(SimNode { id, value, delay_ns }),
            final(self).gates@ == old(self).gates@,
            final(self).time == old(self).time,
            old(self).ids_are_positions() ==> final(self).ids_are_positions(),
    {
        let id = self.nodes.len();
        self.nodes.push(SimNode { id, value, delay_ns });
        id
    }

    /// Advances the clock by one tick and returns the new time.
    pub fn step(&mut self) -> (t: u64)
        requires
            old(self).time < u64::MAX,
        ensures
            t == old(self).time + 1,
            final(self).time == t,
            final(self).nodes@ == old(self).nodes@,
            final(self).gates@ == old(self).gates@,
    {
        self.time = self.time + 1;
        self.time
    }

    /// Advances the clock by `steps` ticks.
    pub fn run(&mut self, steps: usize)
        requires
            old(self).time + steps <= u64::MAX,
        ensures
            final(self).time == old(self).time + steps,
            final(self).nodes@ == old(self).nodes@,
            final(self).gates@ == old(self).gates@,
    {
        for k in 0..steps
            invariant
                self.time == old(self).time + k,
                old(self).time + steps <= u64::MAX,
                self.nodes@ == old(self).nodes@,
                self.gates@ == old(self).gates@,
        {
            self.step();
        }
    }
}

impl Default for Simulation {
    fn default() -> (s: Self)
        ensures
            s.nodes@ == Seq::<SimNode>::empty(),
            s.gates@ == Seq::<SimGate>::empty(),
            s.time == 0,
    {
        Self::new()
    }
}

} // verus!
