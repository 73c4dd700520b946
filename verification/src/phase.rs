//! Phase transition events, and how rolling-window detections are put in
//! order.
use vstd::prelude::*;

use crate::generation_order::{
    dedup_by_generation, dedup_spec, first_only, lemma_dedup_sorted,
    sort_by_generation, strictly_increasing_generations, with_generation, Generational,
};

verus! {

/// A detected phase transition event.
///
/// The magnitude is kept as the bit pattern of its `f64` (`f64::to_bits`).
#[derive(Debug, Clone)]
pub struct PhaseEvent {
    /// Generation where the transition was detected.
    pub generation: usize,
    /// Magnitude of the change (absolute difference in metric), as the bits
    /// of an `f64`.
    pub magnitude_bits: u64,
    /// Description of what changed.
    pub label: String,
}

impl PhaseEvent {
    /// Create a new phase event.
    pub fn new(generation: usize, magnitude_bits: u64, label: String) -> (e: Self)
        ensures
            e.generation == generation,
            e.magnitude_bits == magnitude_bits,
            e.label == label,
    {
        PhaseEvent { generation, magnitude_bits, label }
    }
}

impl Generational for PhaseEvent {
    open spec fn generation_of(&self) -> usize {
        self.generation
    }

    fn generation(&self) -> (g: usize) {
        self.generation
    }
}

/// Law: phase events are ordered by their generation field.
pub proof fn lemma_event_generation(e: PhaseEvent)
    ensures
        e.generation_of() == e.generation,
{
}

/// Puts the events of a rolling-window detection in order: sorted by
/// generation, with one event per generation, the first one found for it.
pub fn order_rolling_events(events: &mut Vec<PhaseEvent>)
    ensures
        strictly_increasing_generations(final(events)@),
        forall|g: usize| #[trigger] with_generation(final(events)@, g) == first_only(
            with_generation(old(events)@, g),
        ),
{
    let ghost before = events@;
    sort_by_generation(events);
    let ghost sorted = events@;
    dedup_by_generation(events);
    proof {
        lemma_dedup_sorted(sorted);
        assert forall|g: usize| #[trigger] with_generation(events@, g) == first_only(
            with_generation(before, g),
        ) by {
            assert(with_generation(dedup_spec(sorted), g) == first_only(with_generation(sorted, g)));
            assert(with_generation(sorted, g) == with_generation(before, g));
        }
    }
}

} // verus!
