//! Per-generation snapshots of a population, kept for analysis and replay.
use vstd::prelude::*;

use crate::TernaryStrategy;

verus! {

/// A snapshot of the full system state at one generation.
///
/// The library computes nothing with the average fitness and the diversity:
/// it keeps them as the bit patterns of their `f64` values (`f64::to_bits`),
/// which a caller turns back with `f64::from_bits`.
#[derive(Debug, Clone)]
pub struct GenerationSnapshot {
    /// Generation index.
    pub generation: usize,
    /// Strategy counts: [avoid, cooperate, exploit].
    pub strategy_counts: [usize; 3],
    /// Average fitness, as the bits of an `f64`.
    pub avg_fitness_bits: u64,
    /// Diversity index, as the bits of an `f64`.
    pub diversity_bits: u64,
    /// Optional tag/label for this generation (e.g., "mutation event").
    pub tag: Option<String>,
}

/// The position of a strategy in a `[avoid, cooperate, exploit]` array.
pub open spec fn strategy_slot(s: TernaryStrategy) -> int {
    match s {
        TernaryStrategy::Avoid => 0,
        TernaryStrategy::Cooperate => 1,
        TernaryStrategy::Exploit => 2,
    }
}

/// The population of a snapshot, as a mathematical sum.
pub open spec fn population_of(s: GenerationSnapshot) -> int {
    s.strategy_counts[0] + s.strategy_counts[1] + s.strategy_counts[2]
}

/// More than half of the snapshot's population plays `strategy`.
pub open spec fn is_dominated_by(s: GenerationSnapshot, strategy: TernaryStrategy) -> bool {
    2 * s.strategy_counts[strategy_slot(strategy)] > population_of(s)
}

/// The snapshot carries the tag `tag`.
pub open spec fn has_tag(s: GenerationSnapshot, tag: Seq<char>) -> bool {
    match s.tag {
        Some(t) => t@ == tag,
        None => false,
    }
}

/// The predicate "carries the tag `tag`".
pub open spec fn tagged(tag: Seq<char>) -> spec_fn(GenerationSnapshot) -> bool {
    |s: GenerationSnapshot| has_tag(s, tag)
}

/// The predicate "is dominated by `strategy`".
pub open spec fn dominated(strategy: TernaryStrategy) -> spec_fn(GenerationSnapshot) -> bool {
    |s: GenerationSnapshot| is_dominated_by(s, strategy)
}

/// Reads a sequence of borrowed snapshots as the snapshots themselves.
pub open spec fn derefs(r: Seq<&GenerationSnapshot>) -> Seq<GenerationSnapshot> {
    r.map_values(|x: &GenerationSnapshot| *x)
}

/// `k` is the first snapshot of `s` for generation `g`.
pub open spec fn is_first_snapshot_of(s: Seq<GenerationSnapshot>, g: usize, k: int) -> bool {
    &&& 0 <= k < s.len()
    &&& s[k].generation == g
    &&& forall|j: int| 0 <= j < k ==> #[trigger] s[j].generation != g
}

/// The borrowed snapshots that a filter gives back satisfy the filter, and
/// every snapshot that satisfies it is among them.
proof fn lemma_filter_members(
    s: Seq<GenerationSnapshot>,
    pred: spec_fn(GenerationSnapshot) -> bool,
    r: Seq<&GenerationSnapshot>,
)
    requires
        derefs(r) == s.filter(pred),
    ensures
        forall|k: int| 0 <= k < r.len() ==> pred(*#[trigger] r[k]),
        forall|i: int| 0 <= i < s.len() && pred(#[trigger] s[i]) ==> derefs(r).contains(s[i]),
{
    assert forall|k: int| 0 <= k < r.len() implies pred(*#[trigger] r[k]) by {
        assert(derefs(r)[k] == *r[k]);
        s.lemma_filter_pred(pred, k);
    }
    assert forall|i: int| 0 <= i < s.len() && pred(#[trigger] s[i]) implies derefs(r).contains(
        s[i],
    ) by {
        s.lemma_filter_contains(pred, i);
    }
}

impl GenerationSnapshot {
    /// Create a new snapshot from raw data.
    pub fn new(
        generation: usize,
        strategy_counts: [usize; 3],
        avg_fitness_bits: u64,
        diversity_bits: u64,
    ) -> (s: Self)
        ensures
            s.generation == generation,
            s.strategy_counts == strategy_counts,
            s.avg_fitness_bits == avg_fitness_bits,
            s.diversity_bits == diversity_bits,
            s.tag == None::<String>,
    {
        GenerationSnapshot {
            generation,
            strategy_counts,
            avg_fitness_bits,
            diversity_bits,
            tag: None,
        }
    }

    /// Attach a tag to this snapshot.
    pub fn with_tag(self, tag: &str) -> (s: Self)
        ensures
            s.generation == self.generation,
            s.strategy_counts == self.strategy_counts,
            s.avg_fitness_bits == self.avg_fitness_bits,
            s.diversity_bits == self.diversity_bits,
            s.tag matches Some(t) && t@ == tag@,
    {
        let t = tag.to_string();
        proof {
            vstd::string::to_string_from_display_ensures_for_str(tag, t);
        }
        let mut s = self;
        s.tag = Some(t);
        s
    }

    /// Total population. The three counts must add up within `usize`.
    pub fn total_population(&self) -> (r: usize)
        requires
            population_of(*self) <= usize::MAX,
        ensures
            r == population_of(*self),
            r == self.strategy_counts[0] + self.strategy_counts[1] + self.strategy_counts[2],
    {
        self.strategy_counts[0] + self.strategy_counts[1] + self.strategy_counts[2]
    }

    /// Whether more than half of the population plays `strategy`.
    fn is_dominated(&self, strategy: TernaryStrategy) -> (r: bool)
        requires
            population_of(*self) <= usize::MAX,
        ensures
            r == is_dominated_by(*self, strategy),
    {
        let total = self.total_population();
        let c = match strategy {
            TernaryStrategy::Avoid => self.strategy_counts[0],
            TernaryStrategy::Cooperate => self.strategy_counts[1],
            TernaryStrategy::Exploit => self.strategy_counts[2],
        };
        c > total - c
    }
}

/// Records detailed per-generation state for analysis and replay.
#[derive(Debug, Clone)]
pub struct GenerationLogger {
    /// All recorded snapshots, in order.
    pub snapshots: Vec<GenerationSnapshot>,
}

impl GenerationLogger {
    /// Create a new empty logger.
    pub fn new() -> (l: Self)
        ensures
            l.snapshots@ == Seq::<GenerationSnapshot>::empty(),
    {
        GenerationLogger { snapshots: Vec::new() }
    }

    /// Log a generation snapshot.
    pub fn log(&mut self, snapshot: GenerationSnapshot)
        ensures
            final(self).snapshots@ == old(self).snapshots@.push(snapshot),
    {
        self.snapshots.push(snapshot);
    }

    /// Number of logged generations.
    pub fn len(&self) -> (r: usize)
        ensures
            r == self.snapshots@.len(),
    {
        self.snapshots.len()
    }

    /// Whether any generations have been logged.
    pub fn is_empty(&self) -> (r: bool)
        ensures
            r == (self.snapshots@.len() == 0),
    {
        self.snapshots.len() == 0
    }

    /// Get a snapshot by generation number: the first one logged for it.
    pub fn get(&self, generation: usize) -> (r: Option<&GenerationSnapshot>)
        ensures
            r matches Some(x) ==> exists|k: int|
                #[trigger] is_first_snapshot_of(self.snapshots@, generation, k) && *x
                    == self.snapshots@[k],
            r is None <==> forall|i: int|
                0 <= i < self.snapshots@.len() ==> #[trigger] self.snapshots@[i].generation
                    != generation,
    {
        let n = self.snapshots.len();
        let mut k: usize = 0;
        while k < n
            invariant
                n == self.snapshots@.len(),
                k <= n,
                forall|j: int| 0 <= j < k ==> #[trigger] self.snapshots@[j].generation != generation,
            decreases n - k,
        {
            if self.snapshots[k].generation == generation {
                proof {
                    assert(is_first_snapshot_of(self.snapshots@, generation, k as int));
                }
                return Some(&self.snapshots[k]);
            }
            k = k + 1;
        }
        None
    }

    /// Get the last snapshot.
    pub fn last(&self) -> (r: Option<&GenerationSnapshot>)
        ensures
            r is None <==> self.snapshots@.len() == 0,
            r matches Some(x) ==> *x == self.snapshots@.last(),
    {
        let n = self.snapshots.len();
        if n == 0 {
            None
        } else {
            Some(&self.snapshots[n - 1])
        }
    }

    /// Find all snapshots with a given tag.
    pub fn find_by_tag(&self, tag: &str) -> (r: Vec<&GenerationSnapshot>)
        ensures
            derefs(r@) == self.snapshots@.filter(tagged(tag@)),
            forall|k: int|
                0 <= k < r@.len() ==> (#[trigger] r@[k]).tag is Some && r@[k].tag->0@ == tag@,
            forall|i: int|
                0 <= i < self.snapshots@.len() && (#[trigger] self.snapshots@[i]).tag is Some
                    && self.snapshots@[i].tag->0@ == tag@ ==> derefs(r@).contains(
                    self.snapshots@[i],
                ),
    {
        let wanted = tag.to_string();
        proof {
            vstd::string::to_string_from_display_ensures_for_str(tag, wanted);
        }
        let ghost s = self.snapshots@;
        let mut r: Vec<&GenerationSnapshot> = Vec::new();
        let n = self.snapshots.len();
        let mut k: usize = 0;
        while k < n
            invariant
                n == s.len(),
                s == self.snapshots@,
                k <= n,
                wanted@ == tag@,
                derefs(r@) == s.take(k as int).filter(tagged(tag@)),
            decreases n - k,
        {
            let snap = &self.snapshots[k];
            let hit = match &snap.tag {
                Some(t) => t.eq(&wanted),
                None => false,
            };
            proof {
                assert(s.take(k as int + 1) == s.take(k as int).push(s[k as int]));
                s.take(k as int).lemma_filter_push(s[k as int], tagged(tag@));
                assert(hit == has_tag(s[k as int], tag@));
            }
            if hit {
                r.push(snap);
            }
            proof {
                assert(derefs(r@) =~= s.take(k as int + 1).filter(tagged(tag@)));
            }
            k = k + 1;
        }
        proof {
            assert(s.take(n as int) =~= s);
            lemma_filter_members(s, tagged(tag@), r@);
        }
        r
    }

    /// Extract generations where a specific strategy dominates (>50%).
    /// Every snapshot's counts must add up within `usize`.
    pub fn dominated_by(&self, strategy: TernaryStrategy) -> (r: Vec<&GenerationSnapshot>)
        requires
            forall|i: int|
                0 <= i < self.snapshots@.len() ==> population_of(#[trigger] self.snapshots@[i])
                    <= usize::MAX,
        ensures
            derefs(r@) == self.snapshots@.filter(dominated(strategy)),
            forall|k: int|
                0 <= k < r@.len() ==> 2 * (#[trigger] r@[k]).strategy_counts[strategy_slot(strategy)]
                    > r@[k].strategy_counts[0] + r@[k].strategy_counts[1] + r@[k].strategy_counts[2],
            forall|i: int|
                0 <= i < self.snapshots@.len() && 2 * (#[trigger] self.snapshots@[i]).strategy_counts[strategy_slot(
                    strategy,
                )] > self.snapshots@[i].strategy_counts[0] + self.snapshots@[i].strategy_counts[1]
                    + self.snapshots@[i].strategy_counts[2] ==> derefs(r@).contains(
                    self.snapshots@[i],
                ),
    {
        let ghost s = self.snapshots@;
        let mut r: Vec<&GenerationSnapshot> = Vec::new();
        let n = self.snapshots.len();
        let mut k: usize = 0;
        while k < n
            invariant
                n == s.len(),
                s == self.snapshots@,
                k <= n,
                forall|i: int| 0 <= i < s.len() ==> population_of(#[trigger] s[i]) <= usize::MAX,
                derefs(r@) == s.take(k as int).filter(dominated(strategy)),
            decreases n - k,
        {
            let snap = &self.snapshots[k];
            proof {
                assert(population_of(s[k as int]) <= usize::MAX);
            }
            let hit = snap.is_dominated(strategy);
            proof {
                assert(s.take(k as int + 1) == s.take(k as int).push(s[k as int]));
                s.take(k as int).lemma_filter_push(s[k as int], dominated(strategy));
            }
            if hit {
                r.push(snap);
            }
            proof {
                assert(derefs(r@) =~= s.take(k as int + 1).filter(dominated(strategy)));
            }
            k = k + 1;
        }
        proof {
            assert(s.take(n as int) =~= s);
            lemma_filter_members(s, dominated(strategy), r@);
        }
        r
    }

    /// Return a summary: (start_gen, end_gen, total_generations).
    pub fn summary(&self) -> (r: (usize, usize, usize))
        ensures
            self.snapshots@.len() == 0 ==> r == (0usize, 0usize, 0usize),
            self.snapshots@.len() > 0 ==> r == (
                self.snapshots@[0].generation,
                self.snapshots@.last().generation,
                self.snapshots@.len() as usize,
            ),
    {
        let n = self.snapshots.len();
        if n == 0 {
            return (0, 0, 0);
        }
        (self.snapshots[0].generation, self.snapshots[n - 1].generation, n)
    }

    /// Export strategy counts as parallel arrays: (avoid[], cooperate[], exploit[]).
    pub fn export_counts(&self) -> (r: (Vec<usize>, Vec<usize>, Vec<usize>))
        ensures
            r.0@ == self.snapshots@.map_values(|s: GenerationSnapshot| s.strategy_counts[0]),
            r.1@ == self.snapshots@.map_values(|s: GenerationSnapshot| s.strategy_counts[1]),
            r.2@ == self.snapshots@.map_values(|s: GenerationSnapshot| s.strategy_counts[2]),
    {
        let n = self.snapshots.len();
        let mut a: Vec<usize> = Vec::with_capacity(n);
        let mut c: Vec<usize> = Vec::with_capacity(n);
        let mut e: Vec<usize> = Vec::with_capacity(n);
        let mut k: usize = 0;
        while k < n
            invariant
                n == self.snapshots@.len(),
                k <= n,
                a@.len() == k && c@.len() == k && e@.len() == k,
                forall|i: int| 0 <= i < k ==> #[trigger] a@[i] == self.snapshots@[i].strategy_counts[0],
                forall|i: int| 0 <= i < k ==> #[trigger] c@[i] == self.snapshots@[i].strategy_counts[1],
                forall|i: int| 0 <= i < k ==> #[trigger] e@[i] == self.snapshots@[i].strategy_counts[2],
            decreases n - k,
        {
            let counts = self.snapshots[k].strategy_counts;
            a.push(counts[0]);
            c.push(counts[1]);
            e.push(counts[2]);
            k = k + 1;
        }
        proof {
            assert(a@ =~= self.snapshots@.map_values(|s: GenerationSnapshot| s.strategy_counts[0]));
            assert(c@ =~= self.snapshots@.map_values(|s: GenerationSnapshot| s.strategy_counts[1]));
            assert(e@ =~= self.snapshots@.map_values(|s: GenerationSnapshot| s.strategy_counts[2]));
        }
        (a, c, e)
    }
}

impl Default for GenerationLogger {
    fn default() -> (l: Self)
        ensures
            l.snapshots@ == Seq::<GenerationSnapshot>::empty(),
    {
        Self::new()
    }
}

/// Law: a snapshot is dominated by a strategy exactly when strictly more than
/// half of its population plays that strategy; a strategy that is merely the
/// most played of the three does not dominate.
pub proof fn lemma_dominated_means_majority(s: GenerationSnapshot)
    ensures
        dominated(TernaryStrategy::Avoid)(s) == (2 * s.strategy_counts[0] > s.strategy_counts[0]
            + s.strategy_counts[1] + s.strategy_counts[2]),
        dominated(TernaryStrategy::Cooperate)(s) == (2 * s.strategy_counts[1]
            > s.strategy_counts[0] + s.strategy_counts[1] + s.strategy_counts[2]),
        dominated(TernaryStrategy::Exploit)(s) == (2 * s.strategy_counts[2] > s.strategy_counts[0]
            + s.strategy_counts[1] + s.strategy_counts[2]),
        is_dominated_by(s, TernaryStrategy::Avoid) == dominated(TernaryStrategy::Avoid)(s),
        is_dominated_by(s, TernaryStrategy::Cooperate) == dominated(TernaryStrategy::Cooperate)(s),
        is_dominated_by(s, TernaryStrategy::Exploit) == dominated(TernaryStrategy::Exploit)(s),
{
}

/// Law: a snapshot carries a tag exactly when its tag is present and equal to
/// the whole query; a tag that only begins or ends with the query, or that
/// the query only begins with, is another tag.
pub proof fn lemma_tag_is_whole_string(s: GenerationSnapshot, tag: Seq<char>)
    ensures
        tagged(tag)(s) == (s.tag is Some && s.tag->0@ == tag),
        has_tag(s, tag) == tagged(tag)(s),
        (s.tag is Some && s.tag->0@.len() != tag.len()) ==> !tagged(tag)(s),
{
}

/// Law: reading borrowed snapshots gives each one, in place.
pub proof fn lemma_derefs(r: Seq<&GenerationSnapshot>)
    ensures
        derefs(r).len() == r.len(),
        forall|k: int| 0 <= k < r.len() ==> #[trigger] derefs(r)[k] == *r[k],
{
}

/// Law: at most one strategy dominates a snapshot.
pub proof fn lemma_one_dominant_strategy(
    s: GenerationSnapshot,
    first: TernaryStrategy,
    second: TernaryStrategy,
)
    requires
        is_dominated_by(s, first),
        is_dominated_by(s, second),
    ensures
        first == second,
{
}

/// Law: the snapshot just logged is the last one, and, unless an earlier
/// snapshot has its generation, the one that `get` finds for its generation.
pub proof fn lemma_log_then_read(before: Seq<GenerationSnapshot>, snapshot: GenerationSnapshot)
    ensures
        before.push(snapshot).last() == snapshot,
        (forall|i: int| 0 <= i < before.len() ==> #[trigger] before[i].generation
            != snapshot.generation) ==> is_first_snapshot_of(
            before.push(snapshot),
            snapshot.generation,
            before.len() as int,
        ),
{
    let after = before.push(snapshot);
    if forall|i: int| 0 <= i < before.len() ==> #[trigger] before[i].generation
        != snapshot.generation {
        assert forall|j: int| 0 <= j < before.len() implies #[trigger] after[j].generation
            != snapshot.generation by {
            assert(after[j] == before[j]);
        }
    }
}

} // verus!
