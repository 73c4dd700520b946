//! Population metrics recorded generation by generation.
use vstd::prelude::*;

verus! {

/// Metrics snapshot for a population at a single generation.
///
/// The library computes nothing with the fitness, diversity and avoidance
/// ratio: it keeps them as the bit patterns of their `f64` values
/// (`f64::to_bits`).
#[derive(Debug, Clone, Copy)]
pub struct PopulationMetrics {
    /// Average fitness across all agents, as the bits of an `f64`.
    pub fitness_bits: u64,
    /// Diversity index (0 = monoculture, 1 = uniform distribution), as the
    /// bits of an `f64`.
    pub diversity_bits: u64,
    /// Fraction of agents using the Avoid strategy, as the bits of an `f64`.
    pub avoidance_ratio_bits: u64,
    /// Total population size.
    pub population_size: usize,
    /// Counts per strategy.
    pub strategy_counts: [usize; 3],
}

/// Tracks population metrics over generations.
#[derive(Debug, Clone)]
pub struct TimeSeries {
    /// Generation labels.
    pub generations: Vec<usize>,
    /// Metrics per generation.
    pub metrics: Vec<PopulationMetrics>,
}

/// `k` is the first position of `g` in `s`.
pub open spec fn is_first_position(s: Seq<usize>, g: usize, k: int) -> bool {
    &&& 0 <= k < s.len()
    &&& s[k] == g
    &&& forall|j: int| 0 <= j < k ==> #[trigger] s[j] != g
}

impl TimeSeries {
    /// Create an empty time series.
    pub fn new() -> (t: Self)
        ensures
            t.generations@ == Seq::<usize>::empty(),
            t.metrics@ == Seq::<PopulationMetrics>::empty(),
    {
        TimeSeries { generations: Vec::new(), metrics: Vec::new() }
    }

    /// Record metrics for a new generation.
    pub fn record(&mut self, generation: usize, m: PopulationMetrics)
        ensures
            final(self).generations@ == old(self).generations@.push(generation),
            final(self).metrics@ == old(self).metrics@.push(m),
    {
        self.generations.push(generation);
        self.metrics.push(m);
    }

    /// Number of recorded generations.
    pub fn len(&self) -> (r: usize)
        ensures
            r == self.metrics@.len(),
    {
        self.metrics.len()
    }

    /// Whether any generations have been recorded.
    pub fn is_empty(&self) -> (r: bool)
        ensures
            r == (self.metrics@.len() == 0),
    {
        self.metrics.len() == 0
    }

    /// Get the metrics for a specific generation, if recorded: the metrics
    /// at the first position of the generation among the labels.
    pub fn get(&self, generation: usize) -> (r: Option<&PopulationMetrics>)
        ensures
            (forall|i: int|
                0 <= i < self.generations@.len() ==> #[trigger] self.generations@[i] != generation)
                ==> r is None,
            forall|k: int| #[trigger]
                is_first_position(self.generations@, generation, k) ==> if k < self.metrics@.len() {
                    r matches Some(x) && *x == self.metrics@[k]
                } else {
                    r is None
                },
    {
        let n = self.generations.len();
        let mut k: usize = 0;
        while k < n
            invariant
                n == self.generations@.len(),
                k <= n,
                forall|j: int| 0 <= j < k ==> #[trigger] self.generations@[j] != generation,
            decreases n - k,
        {
            if self.generations[k] == generation {
                proof {
                    assert forall|k2: int| #[trigger]
                        is_first_position(self.generations@, generation, k2) implies k2 == k by {
                        if k2 < k {
                        } else if k2 > k {
                            assert(self.generations@[k as int] != generation);
                        }
                    }
                }
                if k < self.metrics.len() {
                    return Some(&self.metrics[k]);
                } else {
                    return None;
                }
            }
            k = k + 1;
        }
        None
    }

    /// Return the last recorded metrics.
    pub fn last(&self) -> (r: Option<&PopulationMetrics>)
        ensures
            r is None <==> self.metrics@.len() == 0,
            r matches Some(x) ==> *x == self.metrics@.last(),
    {
        let n = self.metrics.len();
        if n == 0 {
            None
        } else {
            Some(&self.metrics[n - 1])
        }
    }
}

/// Law: metrics recorded for a generation not recorded before are what `get`
/// finds for it, and the last metrics.
pub proof fn lemma_record_then_get(before: TimeSeries, generation: usize, m: PopulationMetrics)
    requires
        before.generations@.len() == before.metrics@.len(),
        forall|i: int|
            0 <= i < before.generations@.len() ==> #[trigger] before.generations@[i] != generation,
    ensures
        is_first_position(
            before.generations@.push(generation),
            generation,
            before.generations@.len() as int,
        ),
        before.generations@.len() < before.metrics@.push(m).len(),
        before.metrics@.push(m)[before.generations@.len() as int] == m,
        before.metrics@.push(m).last() == m,
{
    let g2 = before.generations@.push(generation);
    assert forall|j: int| 0 <= j < before.generations@.len() implies #[trigger] g2[j]
        != generation by {
        assert(g2[j] == before.generations@[j]);
    }
}

} // verus!
