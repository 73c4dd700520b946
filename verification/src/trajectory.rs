//! The strategy history of a single agent.
use vstd::prelude::*;

use crate::generation_order::{
    in_generation, is_stable_sort_by_generation, lemma_insert_after_not_later,
    lemma_stable_sort_unique, sort_by_generation,
    sorted_by_generation, with_generation, Generational,
};
use crate::TernaryStrategy;

verus! {

/// A strategy at a point in time — used to build a trajectory.
#[derive(Debug, Clone, Copy, PartialEq, Eq, Structural)]
pub struct Strategy {
    /// Which ternary strategy.
    pub strategy: TernaryStrategy,
    /// The generation this strategy was adopted.
    pub generation: usize,
}

impl Strategy {
    /// Create a new strategy entry.
    pub fn new(strategy: TernaryStrategy, generation: usize) -> (s: Self)
        ensures
            s == (Strategy { strategy, generation }),
    {
        Strategy { strategy, generation }
    }
}

impl Generational for Strategy {
    open spec fn generation_of(&self) -> usize {
        self.generation
    }

    fn generation(&self) -> (g: usize) {
        self.generation
    }
}

/// Tracks a single agent's strategy changes over time.
#[derive(Debug, Clone)]
pub struct Trajectory {
    /// Unique agent identifier.
    pub agent_id: usize,
    /// Strategy history in chronological order.
    pub history: Vec<Strategy>,
}

// ---------------------------------------------------------------------------
// The model of a history
// ---------------------------------------------------------------------------

/// Every generation of `h` comes after the one before it: what `adopt` keeps
/// of a history that starts empty.
pub open spec fn strictly_increasing(h: Seq<Strategy>) -> bool {
    forall|i: int, j: int|
        0 <= i < j < h.len() ==> #[trigger] h[i].generation < #[trigger] h[j].generation
}

/// `h` has an entry for generation `g`.
pub open spec fn records_generation(h: Seq<Strategy>, g: usize) -> bool {
    exists|i: int| 0 <= i < h.len() && #[trigger] h[i].generation == g
}

/// `k` is the first entry of `h` for generation `g`.
pub open spec fn is_first_of_generation(h: Seq<Strategy>, g: usize, k: int) -> bool {
    &&& 0 <= k < h.len()
    &&& h[k].generation == g
    &&& forall|j: int| 0 <= j < k ==> #[trigger] h[j].generation != g
}

/// `after` is the history that adopting `strategy` at generation `g` makes of
/// `before`: the first entry for `g` gets the new strategy, or, where there is
/// none, the new entry is added and the whole history is sorted by generation,
/// entries of one generation keeping their order.
pub open spec fn adopted(
    before: Seq<Strategy>,
    strategy: TernaryStrategy,
    g: usize,
    after: Seq<Strategy>,
) -> bool {
    let entry = Strategy { strategy, generation: g };
    if records_generation(before, g) {
        forall|k: int| #[trigger]
            is_first_of_generation(before, g, k) ==> after == before.update(k, entry)
    } else {
        is_stable_sort_by_generation(after, before.push(entry))
    }
}

/// The strategy of the last entry of `h` whose generation is at most `g`.
pub open spec fn strategy_at_spec(h: Seq<Strategy>, g: usize) -> Option<TernaryStrategy>
    decreases h.len(),
{
    if h.len() == 0 {
        None
    } else if h.last().generation <= g {
        Some(h.last().strategy)
    } else {
        strategy_at_spec(h.drop_last(), g)
    }
}

/// The number of neighbouring entries of `h` whose strategies differ.
pub open spec fn transitions(h: Seq<Strategy>) -> nat
    decreases h.len(),
{
    if h.len() <= 1 {
        0
    } else {
        transitions(h.drop_last()) + if h[h.len() - 2].strategy != h.last().strategy {
            1nat
        } else {
            0nat
        }
    }
}

/// The generations spent in `s`: the sum, over neighbouring entries of `h`
/// of which the first plays `s`, of the generations between them.
pub open spec fn time_in(h: Seq<Strategy>, s: TernaryStrategy) -> int
    decreases h.len(),
{
    if h.len() <= 1 {
        0
    } else {
        time_in(h.drop_last(), s) + if h[h.len() - 2].strategy == s {
            h.last().generation - h[h.len() - 2].generation
        } else {
            0
        }
    }
}

/// Entry `j` of `h` switches away from the strategy of entry `j - 1` back to
/// the strategy of the earlier entry `i`.
pub open spec fn returns_to(h: Seq<Strategy>, i: int, j: int) -> bool {
    &&& 0 <= i < j < h.len()
    &&& h[j - 1].strategy != h[j].strategy
    &&& h[i].strategy == h[j].strategy
}

/// Some entry of `h` switches to a strategy that an earlier entry played.
pub open spec fn switches_back(h: Seq<Strategy>) -> bool {
    exists|i: int, j: int| #[trigger] returns_to(h, i, j)
}

/// Every entry of `h` plays the same strategy as the first.
pub open spec fn single_strategy(h: Seq<Strategy>) -> bool {
    forall|i: int| 0 <= i < h.len() ==> #[trigger] h[i].strategy == h[0].strategy
}

/// Where an entry of generation `g` goes in a history sorted by generation:
/// after every entry of an earlier generation.
pub open spec fn insertion_point(h: Seq<Strategy>, g: usize) -> int
    decreases h.len(),
{
    if h.len() == 0 {
        0
    } else if h.last().generation < g {
        h.len() as int
    } else {
        insertion_point(h.drop_last(), g)
    }
}

// ---------------------------------------------------------------------------
// Lemmas on the model
// ---------------------------------------------------------------------------

proof fn lemma_take_drop_last<A>(h: Seq<A>, i: int)
    requires
        0 < i <= h.len(),
    ensures
        h.take(i).drop_last() == h.take(i - 1),
        h.take(i).last() == h[i - 1],
{
    assert(h.take(i).drop_last() =~= h.take(i - 1));
}

/// In a sorted history with no entry for `g`, the insertion point splits the
/// earlier generations from the later ones.
proof fn lemma_insertion_point(h: Seq<Strategy>, g: usize)
    requires
        sorted_by_generation(h),
        !records_generation(h, g),
    ensures
        0 <= insertion_point(h, g) <= h.len(),
        forall|k: int| 0 <= k < insertion_point(h, g) ==> #[trigger] h[k].generation < g,
        forall|k: int| insertion_point(h, g) <= k < h.len() ==> #[trigger] h[k].generation > g,
    decreases h.len(),
{
    if h.len() > 0 {
        let d = h.drop_last();
        assert(!records_generation(d, g)) by {
            if records_generation(d, g) {
                let i = choose|i: int| 0 <= i < d.len() && #[trigger] d[i].generation == g;
                assert(h[i].generation == g);
            }
        }
        assert(sorted_by_generation(d)) by {
            assert forall|i: int, j: int| 0 <= i <= j < d.len() implies #[trigger] d[i].generation_of()
                <= #[trigger] d[j].generation_of() by {
                assert(h[i].generation_of() <= h[j].generation_of());
            }
        }
        lemma_insertion_point(d, g);
        if h.last().generation < g {
            assert forall|k: int| 0 <= k < h.len() implies #[trigger] h[k].generation < g by {
                assert(h[k].generation_of() <= h[h.len() - 1].generation_of());
            }
        } else {
            assert(h[h.len() - 1].generation != g);
            assert forall|k: int| 0 <= k < insertion_point(h, g) implies #[trigger] h[k].generation
                < g by {
                assert(d[k] == h[k]);
            }
            assert forall|k: int| insertion_point(h, g) <= k < h.len() implies #[trigger] h[k].generation
                > g by {
                if k < h.len() - 1 {
                    assert(d[k] == h[k]);
                }
            }
        }
    }
}

/// Entries past `n` that all come after generation `g` do not matter to the
/// strategy at `g`.
proof fn lemma_strategy_at_prefix(h: Seq<Strategy>, n: int, g: usize)
    requires
        0 <= n <= h.len(),
        forall|k: int| n <= k < h.len() ==> #[trigger] h[k].generation > g,
    ensures
        strategy_at_spec(h, g) == strategy_at_spec(h.take(n), g),
    decreases h.len(),
{
    if h.len() == n {
        assert(h.take(n) =~= h);
    } else {
        let d = h.drop_last();
        assert(h[h.len() - 1].generation > g);
        assert(d.take(n) =~= h.take(n));
        lemma_strategy_at_prefix(d, n, g);
    }
}

/// The strategy at `g` is that of an entry at or before `g` followed only by
/// later generations.
proof fn lemma_strategy_at_entry(h: Seq<Strategy>, k: int, g: usize)
    requires
        0 <= k < h.len(),
        h[k].generation <= g,
        forall|j: int| k < j < h.len() ==> #[trigger] h[j].generation > g,
    ensures
        strategy_at_spec(h, g) == Some(h[k].strategy),
{
    lemma_strategy_at_prefix(h, k + 1, g);
    lemma_take_drop_last(h, k + 1);
}

/// A history with no transition plays one strategy throughout, and back.
proof fn lemma_transitions_zero(h: Seq<Strategy>)
    requires
        h.len() > 0,
    ensures
        transitions(h) == 0 <==> single_strategy(h),
    decreases h.len(),
{
    if h.len() > 1 {
        let d = h.drop_last();
        lemma_transitions_zero(d);
        if transitions(h) == 0 {
            assert forall|i: int| 0 <= i < h.len() implies #[trigger] h[i].strategy == h[0].strategy by {
                assert(d[0] == h[0]);
                if i < h.len() - 1 {
                    assert(d[i] == h[i]);
                } else {
                    assert(d[i - 1] == h[i - 1]);
                }
            }
        }
        if single_strategy(h) {
            assert forall|i: int| 0 <= i < d.len() implies #[trigger] d[i].strategy == d[0].strategy by {
                assert(h[i].strategy == h[0].strategy);
            }
            assert(h[h.len() - 2].strategy == h[0].strategy);
            assert(h[h.len() - 1].strategy == h[0].strategy);
        }
    }
}

/// A prefix has no more transitions than the whole history.
proof fn lemma_transitions_prefix(h: Seq<Strategy>, m: int)
    requires
        0 <= m <= h.len(),
    ensures
        transitions(h.take(m)) <= transitions(h),
    decreases h.len() - m,
{
    if m < h.len() {
        lemma_transitions_prefix(h, m + 1);
        if m > 0 {
            lemma_take_drop_last(h, m + 1);
        }
    } else {
        assert(h.take(m) =~= h);
    }
}

/// Switching back to an earlier strategy takes at least two transitions.
proof fn lemma_switch_back_transitions(h: Seq<Strategy>)
    requires
        switches_back(h),
    ensures
        transitions(h) >= 2,
{
    let (i, j) = choose|i: int, j: int| #[trigger] returns_to(h, i, j);
    assert(returns_to(h, i, j));
    let p = h.take(j);
    assert(p.len() == j);
    assert(p[i] == h[i] && p[j - 1] == h[j - 1] && p[0] == h[0]);
    lemma_transitions_zero(p);
    assert(transitions(p) >= 1) by {
        if transitions(p) == 0 {
            assert(p[i].strategy == p[0].strategy);
            assert(p[j - 1].strategy == p[0].strategy);
        }
    }
    let t = h.take(j + 1);
    lemma_take_drop_last(h, j + 1);
    assert(t[j - 1] == h[j - 1] && t[j] == h[j]);
    assert(transitions(t) == transitions(p) + 1);
    lemma_transitions_prefix(h, j + 1);
}

/// In a history in generation order no strategy gets negative time.
proof fn lemma_time_in_nonneg(h: Seq<Strategy>, s: TernaryStrategy)
    requires
        sorted_by_generation(h),
    ensures
        time_in(h, s) >= 0,
    decreases h.len(),
{
    if h.len() > 1 {
        let d = h.drop_last();
        assert(sorted_by_generation(d)) by {
            assert forall|i: int, j: int| 0 <= i <= j < d.len() implies #[trigger] d[i].generation_of()
                <= #[trigger] d[j].generation_of() by {
                assert(h[i].generation_of() <= h[j].generation_of());
            }
        }
        lemma_time_in_nonneg(d, s);
        assert(h[h.len() - 2].generation_of() <= h[h.len() - 1].generation_of());
    }
}

// ---------------------------------------------------------------------------
// Laws
// ---------------------------------------------------------------------------

/// Law: after adopting a strategy at a generation, the agent plays that
/// strategy at that generation.
pub proof fn lemma_adopt_then_strategy_at(
    before: Seq<Strategy>,
    strategy: TernaryStrategy,
    g: usize,
    after: Seq<Strategy>,
)
    requires
        strictly_increasing(before),
        adopted(before, strategy, g, after),
    ensures
        strategy_at_spec(after, g) == Some(strategy),
{
    let entry = Strategy { strategy, generation: g };
    if records_generation(before, g) {
        let k = choose|k: int| 0 <= k < before.len() && #[trigger] before[k].generation == g;
        assert(is_first_of_generation(before, g, k)) by {
            assert forall|j: int| 0 <= j < k implies #[trigger] before[j].generation != g by {
                assert(before[j].generation < before[k].generation);
            }
        }
        assert(after == before.update(k, entry));
        assert forall|j: int| k < j < after.len() implies #[trigger] after[j].generation > g by {
            assert(before[k].generation < before[j].generation);
        }
        lemma_strategy_at_entry(after, k, g);
    } else {
        lemma_adopt_inserts(before, strategy, g, after);
        let p = insertion_point(before, g);
        lemma_insertion_point(before, g);
        assert forall|j: int| p < j < after.len() implies #[trigger] after[j].generation > g by {
            assert(after[j] == before[j - 1]);
        }
        lemma_strategy_at_entry(after, p, g);
    }
}

/// Law: adopting into a history sorted by generation that has no entry for
/// the generation inserts the new entry after every earlier generation and
/// before every later one.
pub proof fn lemma_adopt_inserts(
    before: Seq<Strategy>,
    strategy: TernaryStrategy,
    g: usize,
    after: Seq<Strategy>,
)
    requires
        sorted_by_generation(before),
        !records_generation(before, g),
        adopted(before, strategy, g, after),
    ensures
        after == before.insert(insertion_point(before, g), Strategy { strategy, generation: g }),
{
    let entry = Strategy { strategy, generation: g };
    let p = insertion_point(before, g);
    lemma_insertion_point(before, g);
    lemma_insert_after_not_later(before, p, entry);
    let ins = before.insert(p, entry);
    assert forall|h: usize| #[trigger]
        crate::generation_order::with_generation(after, h)
            == crate::generation_order::with_generation(ins, h) by {
        assert(crate::generation_order::with_generation(after, h)
            == crate::generation_order::with_generation(before.push(entry), h));
        assert(crate::generation_order::with_generation(ins, h)
            == crate::generation_order::with_generation(before.push(entry), h));
    }
    lemma_stable_sort_unique(after, ins);
}

/// Law: adopting a strategy at a generation leaves the strategy played at
/// every earlier generation as it was.
pub proof fn lemma_adopt_keeps_past(
    before: Seq<Strategy>,
    strategy: TernaryStrategy,
    g: usize,
    after: Seq<Strategy>,
    earlier: usize,
)
    requires
        strictly_increasing(before),
        adopted(before, strategy, g, after),
        earlier < g,
    ensures
        strategy_at_spec(after, earlier) == strategy_at_spec(before, earlier),
{
    let entry = Strategy { strategy, generation: g };
    if records_generation(before, g) {
        let k = choose|k: int| 0 <= k < before.len() && #[trigger] before[k].generation == g;
        assert(is_first_of_generation(before, g, k)) by {
            assert forall|j: int| 0 <= j < k implies #[trigger] before[j].generation != g by {
                assert(before[j].generation < before[k].generation);
            }
        }
        assert(after == before.update(k, entry));
        assert forall|j: int| k <= j < before.len() implies #[trigger] before[j].generation
            > earlier by {
            if j > k {
                assert(before[k].generation < before[j].generation);
            }
        }
        assert forall|j: int| k <= j < after.len() implies #[trigger] after[j].generation
            > earlier by {
            assert(after[j].generation == before[j].generation);
        }
        lemma_strategy_at_prefix(before, k, earlier);
        lemma_strategy_at_prefix(after, k, earlier);
        assert(after.take(k) =~= before.take(k));
    } else {
        lemma_adopt_inserts(before, strategy, g, after);
        let p = insertion_point(before, g);
        lemma_insertion_point(before, g);
        assert forall|j: int| p <= j < after.len() implies #[trigger] after[j].generation
            > earlier by {
            if j > p {
                assert(after[j] == before[j - 1]);
            }
        }
        lemma_strategy_at_prefix(before, p, earlier);
        lemma_strategy_at_prefix(after, p, earlier);
        assert(after.take(p) =~= before.take(p));
    }
}

/// Law: an agent that switches back to an earlier strategy is never loyal.
pub proof fn lemma_oscillator_is_not_loyal(h: Seq<Strategy>)
    requires
        switches_back(h),
    ensures
        !(h.len() > 0 && transitions(h) == 0),
{
    lemma_switch_back_transitions(h);
}

/// Law: adopting the same strategy at the same generation a second time
/// changes nothing.
pub proof fn lemma_adopt_idempotent(
    h0: Seq<Strategy>,
    strategy: TernaryStrategy,
    g: usize,
    h1: Seq<Strategy>,
    h2: Seq<Strategy>,
)
    requires
        adopted(h0, strategy, g, h1),
        adopted(h1, strategy, g, h2),
    ensures
        h2 == h1,
{
    let entry = Strategy { strategy, generation: g };
    if records_generation(h0, g) {
        let k0 = choose|k: int| 0 <= k < h0.len() && #[trigger] h0[k].generation == g;
        let k = lemma_first_of_generation(h0, g, k0);
        assert(h1 == h0.update(k, entry));
        assert(is_first_of_generation(h1, g, k)) by {
            assert forall|j: int| 0 <= j < k implies #[trigger] h1[j].generation != g by {
                assert(h1[j] == h0[j]);
            }
        }
        assert(records_generation(h1, g)) by {
            assert(h1[k].generation == g);
        }
        assert(h2 == h1.update(k, entry));
        assert(h1.update(k, entry) =~= h1);
    } else {
        assert(with_generation(h1, g) == with_generation(h0.push(entry), g));
        h0.lemma_filter_push(entry, in_generation::<Strategy>(g));
        lemma_with_generation_none_strategy(h0, g);
        assert(with_generation(h1, g) =~= seq![entry]);
        assert(h1.contains(entry)) by {
            h1.lemma_filter_contains_rev(in_generation::<Strategy>(g), entry);
            assert(with_generation(h1, g)[0] == entry);
        }
        let k1 = choose|k: int| 0 <= k < h1.len() && h1[k] == entry;
        assert(h1[k1].generation == g);
        assert(records_generation(h1, g));
        assert forall|k: int| #[trigger] is_first_of_generation(h1, g, k) implies h1.update(k, entry)
            == h1 by {
            h1.lemma_filter_contains(in_generation::<Strategy>(g), k);
            assert(with_generation(h1, g).contains(h1[k]));
            assert(h1[k] == entry);
            assert(h1.update(k, entry) =~= h1);
        }
        let k = lemma_first_of_generation(h1, g, k1);
        assert(h2 == h1.update(k, entry));
    }
}

/// Filtering a history with no entry for `g` by generation `g` gives nothing.
proof fn lemma_with_generation_none_strategy(h: Seq<Strategy>, g: usize)
    requires
        !records_generation(h, g),
    ensures
        with_generation(h, g) == Seq::<Strategy>::empty(),
{
    assert forall|k: int| 0 <= k < h.len() implies #[trigger] h[k].generation_of() != g by {
        if h[k].generation == g {
            assert(records_generation(h, g));
        }
    }
    crate::generation_order::lemma_with_generation_none(h, g);
}

/// A history with an entry for `g` has a first one.
proof fn lemma_first_of_generation(h: Seq<Strategy>, g: usize, k0: int) -> (k: int)
    requires
        0 <= k0 < h.len(),
        h[k0].generation == g,
    ensures
        is_first_of_generation(h, g, k),
    decreases k0,
{
    if exists|j: int| 0 <= j < k0 && #[trigger] h[j].generation == g {
        let j = choose|j: int| 0 <= j < k0 && #[trigger] h[j].generation == g;
        lemma_first_of_generation(h, g, j)
    } else {
        k0
    }
}

/// Law: at or after the generation of the last entry, the agent plays its
/// current strategy.
pub proof fn lemma_strategy_at_after_last(h: Seq<Strategy>, g: usize)
    requires
        h.len() > 0,
        h.last().generation <= g,
    ensures
        strategy_at_spec(h, g) == Some(h.last().strategy),
{
}

/// Law: before the first generation of a history in generation order, the
/// agent plays no strategy.
pub proof fn lemma_strategy_at_before_first(h: Seq<Strategy>, g: usize)
    requires
        sorted_by_generation(h),
        h.len() > 0 ==> g < h[0].generation,
    ensures
        strategy_at_spec(h, g) == None::<TernaryStrategy>,
{
    assert forall|k: int| 0 <= k < h.len() implies #[trigger] h[k].generation > g by {
        assert(h[0].generation_of() <= h[k].generation_of());
    }
    lemma_strategy_at_prefix(h, 0, g);
}

/// One step of a strictly increasing history under `adopt`: it stays strictly
/// increasing, it records `g` beside what it recorded before, and it grows by
/// one entry exactly when `g` was new.
pub proof fn lemma_adopt_step(
    before: Seq<Strategy>,
    strategy: TernaryStrategy,
    g: usize,
    after: Seq<Strategy>,
)
    requires
        strictly_increasing(before),
        adopted(before, strategy, g, after),
    ensures
        strictly_increasing(after),
        after.len() == before.len() + if records_generation(before, g) {
            0int
        } else {
            1int
        },
        forall|x: usize| #[trigger]
            records_generation(after, x) <==> (records_generation(before, x) || x == g),
{
    let entry = Strategy { strategy, generation: g };
    if records_generation(before, g) {
        let k0 = choose|k: int| 0 <= k < before.len() && #[trigger] before[k].generation == g;
        let k = lemma_first_of_generation(before, g, k0);
        assert(after == before.update(k, entry));
        assert forall|i: int, j: int| 0 <= i < j < after.len() implies #[trigger] after[i].generation
            < #[trigger] after[j].generation by {
            assert(before[i].generation < before[j].generation);
        }
        assert forall|x: usize| #[trigger]
            records_generation(after, x) <==> (records_generation(before, x) || x == g) by {
            if records_generation(after, x) {
                let i = choose|i: int| 0 <= i < after.len() && #[trigger] after[i].generation == x;
                assert(before[i].generation == after[i].generation);
            }
            if records_generation(before, x) {
                let i = choose|i: int| 0 <= i < before.len() && #[trigger] before[i].generation == x;
                assert(before[i].generation == after[i].generation);
            }
        }
    } else {
        assert(sorted_by_generation(before)) by {
            assert forall|i: int, j: int| 0 <= i <= j < before.len() implies #[trigger] before[i].generation_of()
                <= #[trigger] before[j].generation_of() by {
                if i < j {
                    assert(before[i].generation < before[j].generation);
                }
            }
        }
        lemma_adopt_inserts(before, strategy, g, after);
        let p = insertion_point(before, g);
        lemma_insertion_point(before, g);
        assert forall|i: int, j: int| 0 <= i < j < after.len() implies #[trigger] after[i].generation
            < #[trigger] after[j].generation by {
            if i < p && j < p {
                assert(before[i].generation < before[j].generation);
            } else if i < p && j == p {
            } else if i < p {
                assert(after[j] == before[j - 1]);
            } else if i == p {
                assert(after[j] == before[j - 1]);
            } else {
                assert(after[i] == before[i - 1]);
                assert(after[j] == before[j - 1]);
                assert(before[i - 1].generation < before[j - 1].generation);
            }
        }
        assert forall|x: usize| #[trigger]
            records_generation(after, x) <==> (records_generation(before, x) || x == g) by {
            if records_generation(after, x) {
                let i = choose|i: int| 0 <= i < after.len() && #[trigger] after[i].generation == x;
                if i < p {
                    assert(after[i] == before[i]);
                    assert(before[i].generation == x);
                } else if i > p {
                    assert(after[i] == before[i - 1]);
                    assert(before[i - 1].generation == x);
                }
            }
            if records_generation(before, x) {
                let i = choose|i: int| 0 <= i < before.len() && #[trigger] before[i].generation == x;
                if i < p {
                    assert(after[i] == before[i]);
                    assert(after[i].generation == x);
                } else {
                    assert(after[i + 1] == before[i]);
                    assert(after[i + 1].generation == x);
                }
            }
            if x == g {
                assert(after[p] == entry);
                assert(after[p].generation == x);
            }
        }
    }
}

/// The distinct generations among a sequence of adoptions.
pub open spec fn adopted_generations(steps: Seq<(TernaryStrategy, usize)>) -> Set<usize>
    decreases steps.len(),
{
    if steps.len() == 0 {
        Set::empty()
    } else {
        adopted_generations(steps.drop_last()).insert(steps.last().1)
    }
}

/// `hs` is the run of histories that a trajectory goes through when it starts
/// empty and adopts `steps` in order: `hs[i + 1]` is what adopting
/// `steps[i]` makes of `hs[i]`.
pub open spec fn adoption_run(hs: Seq<Seq<Strategy>>, steps: Seq<(TernaryStrategy, usize)>) -> bool {
    &&& hs.len() == steps.len() + 1
    &&& hs[0] == Seq::<Strategy>::empty()
    &&& forall|i: int|
        0 <= i < steps.len() ==> adopted(#[trigger] hs[i], steps[i].0, steps[i].1, hs[i + 1])
}

/// Law: a trajectory that starts empty and adopts a sequence of strategies,
/// at generations in any order, ends with one entry per distinct generation,
/// in strictly increasing order of generation, so with no more entries than
/// adoptions.
pub proof fn lemma_adoptions_count_generations(
    hs: Seq<Seq<Strategy>>,
    steps: Seq<(TernaryStrategy, usize)>,
)
    requires
        adoption_run(hs, steps),
    ensures
        hs.last().len() == adopted_generations(steps).len(),
        hs.last().len() <= steps.len(),
        strictly_increasing(hs.last()),
        forall|x: usize| #[trigger]
            records_generation(hs.last(), x) <==> adopted_generations(steps).contains(x),
    decreases steps.len(),
{
    lemma_adopted_generations_finite(steps);
    if steps.len() == 0 {
        assert forall|x: usize| #[trigger]
            records_generation(hs.last(), x) <==> adopted_generations(steps).contains(x) by {
            assert(hs.last() == hs[0]);
        }
    } else {
        let n = steps.len() as int;
        let hs1 = hs.drop_last();
        let steps1 = steps.drop_last();
        assert forall|i: int| 0 <= i < steps1.len() implies adopted(
            #[trigger] hs1[i],
            steps1[i].0,
            steps1[i].1,
            hs1[i + 1],
        ) by {
            assert(adopted(hs[i], steps[i].0, steps[i].1, hs[i + 1]));
        }
        assert(adoption_run(hs1, steps1));
        lemma_adoptions_count_generations(hs1, steps1);
        lemma_adopted_generations_finite(steps1);
        let before = hs[n - 1];
        assert(before == hs1.last());
        assert(adopted(hs[n - 1], steps[n - 1].0, steps[n - 1].1, hs[n]));
        lemma_adopt_step(before, steps[n - 1].0, steps[n - 1].1, hs[n]);
        let g = steps.last().1;
        assert(adopted_generations(steps) == adopted_generations(steps1).insert(g));
        assert(records_generation(before, g) == adopted_generations(steps1).contains(g));
        assert forall|x: usize| #[trigger]
            records_generation(hs.last(), x) <==> adopted_generations(steps).contains(x) by {
            assert(records_generation(before, x) == adopted_generations(steps1).contains(x));
        }
    }
}

proof fn lemma_adopted_generations_finite(steps: Seq<(TernaryStrategy, usize)>)
    ensures
        adopted_generations(steps).finite(),
    decreases steps.len(),
{
    if steps.len() > 0 {
        lemma_adopted_generations_finite(steps.drop_last());
    }
}

/// Law: an entry that switches away from the strategy of the entry just
/// before it, back to the strategy of any earlier entry however far back,
/// makes the history switch back.
pub proof fn lemma_switch_back_any_distance(h: Seq<Strategy>, i: int, j: int)
    requires
        0 <= i < j < h.len(),
        h[j - 1].strategy != h[j].strategy,
        h[i].strategy == h[j].strategy,
    ensures
        switches_back(h),
{
    assert(returns_to(h, i, j));
}

/// Law: a history of at most one entry has no transition, and appending an
/// entry adds one transition exactly when its strategy differs from the
/// strategy of the last entry; in particular appending the same strategy
/// again changes nothing.
pub proof fn lemma_transitions_push(h: Seq<Strategy>, x: Strategy)
    ensures
        h.len() <= 1 ==> transitions(h) == 0,
        transitions(h.push(x)) == transitions(h) + if h.len() > 0 && h.last().strategy
            != x.strategy {
            1int
        } else {
            0int
        },
{
    if h.len() > 0 {
        assert(h.push(x).drop_last() =~= h);
        assert(h.push(x)[h.len() - 1] == h.last());
    }
}

/// Law: the transitions of a history count its neighbouring entries with
/// different strategies: no more than one fewer than its entries.
pub proof fn lemma_transitions_bound(h: Seq<Strategy>)
    ensures
        h.len() > 0 ==> transitions(h) < h.len(),
    decreases h.len(),
{
    if h.len() > 1 {
        lemma_transitions_bound(h.drop_last());
    }
}

/// Law: the time spent in a strategy grows, when an entry is appended, by the
/// generations since the last entry exactly when the last entry plays that
/// strategy, and a history of at most one entry has spent no time.
pub proof fn lemma_time_in_push(h: Seq<Strategy>, x: Strategy, s: TernaryStrategy)
    ensures
        h.len() <= 1 ==> time_in(h, s) == 0,
        time_in(h.push(x), s) == time_in(h, s) + if h.len() > 0 && h.last().strategy == s {
            x.generation - h.last().generation
        } else {
            0
        },
{
    if h.len() > 0 {
        assert(h.push(x).drop_last() =~= h);
        assert(h.push(x)[h.len() - 1] == h.last());
    }
}

/// Law: the strategy at generation `g` is the strategy of an entry at or
/// before `g` that no later entry at or before `g` follows; there is none
/// exactly when every entry comes after `g`.
pub proof fn lemma_strategy_at_meaning(h: Seq<Strategy>, g: usize)
    ensures
        strategy_at_spec(h, g) is None <==> forall|k: int|
            0 <= k < h.len() ==> #[trigger] h[k].generation > g,
        strategy_at_spec(h, g) is Some ==> exists|k: int|
            0 <= k < h.len() && h[k].generation <= g && #[trigger] h[k].strategy
                == strategy_at_spec(h, g)->0 && forall|j: int|
                k < j < h.len() ==> #[trigger] h[j].generation > g,
    decreases h.len(),
{
    if h.len() > 0 {
        let d = h.drop_last();
        lemma_strategy_at_meaning(d, g);
        let n = h.len() - 1;
        if h[n].generation <= g {
            assert(h[n].strategy == strategy_at_spec(h, g)->0);
        } else {
            if strategy_at_spec(h, g) is Some {
                let k = choose|k: int|
                    0 <= k < d.len() && d[k].generation <= g && #[trigger] d[k].strategy
                        == strategy_at_spec(d, g)->0 && forall|j: int|
                        k < j < d.len() ==> #[trigger] d[j].generation > g;
                assert(h[k] == d[k]);
                assert forall|j: int| k < j < h.len() implies #[trigger] h[j].generation > g by {
                    if j < n {
                        assert(h[j] == d[j]);
                    }
                }
            } else {
                assert forall|k: int| 0 <= k < h.len() implies #[trigger] h[k].generation > g by {
                    if k < n {
                        assert(h[k] == d[k]);
                    }
                }
            }
            assert((forall|k: int| 0 <= k < h.len() ==> #[trigger] h[k].generation > g) ==> (forall|k: int|
                0 <= k < d.len() ==> #[trigger] d[k].generation > g)) by {
                if forall|k: int| 0 <= k < h.len() ==> #[trigger] h[k].generation > g {
                    assert forall|k: int| 0 <= k < d.len() implies #[trigger] d[k].generation > g by {
                        assert(h[k] == d[k]);
                    }
                }
            }
        }
    }
}

/// Law: a strategy entry is ordered by its generation field.
pub proof fn lemma_strategy_generation(x: Strategy)
    ensures
        x.generation_of() == x.generation,
{
}

// ---------------------------------------------------------------------------
// Trajectory
// ---------------------------------------------------------------------------

impl Trajectory {
    /// Create a new trajectory for an agent.
    pub fn new(agent_id: usize) -> (t: Self)
        ensures
            t.agent_id == agent_id,
            t.history@ == Seq::<Strategy>::empty(),
    {
        Trajectory { agent_id, history: Vec::new() }
    }

    /// Record a strategy adoption at a generation.
    /// If the agent already has a strategy at this generation, it is replaced.
    pub fn adopt(&mut self, strategy: TernaryStrategy, generation: usize)
        ensures
            final(self).agent_id == old(self).agent_id,
            adopted(old(self).history@, strategy, generation, final(self).history@),
            strictly_increasing(old(self).history@) ==> strictly_increasing(final(self).history@),
    {
        let n = self.history.len();
        let mut k: usize = 0;
        while k < n
            invariant
                n == self.history@.len(),
                k <= n,
                self.history@ == old(self).history@,
                self.agent_id == old(self).agent_id,
                forall|j: int| 0 <= j < k ==> #[trigger] self.history@[j].generation != generation,
            decreases n - k,
        {
            if self.history[k].generation == generation {
                let ghost before = self.history@;
                let entry = Strategy::new(strategy, generation);
                self.history.set(k, entry);
                proof {
                    let entry = Strategy { strategy, generation };
                    assert(is_first_of_generation(before, generation, k as int));
                    assert(records_generation(before, generation));
                    assert forall|k2: int| #[trigger]
                        is_first_of_generation(before, generation, k2) implies self.history@
                        == before.update(k2, entry) by {
                        if k2 < k {
                            assert(before[k2].generation != generation);
                        } else if k2 > k {
                            assert(before[k as int].generation != generation);
                        }
                    }
                    if strictly_increasing(before) {
                        lemma_adopt_step(before, strategy, generation, self.history@);
                    }
                }
                return ;
            }
            k = k + 1;
        }
        let ghost before = self.history@;
        proof {
            assert(!records_generation(before, generation)) by {
                if records_generation(before, generation) {
                    let i = choose|i: int|
                        0 <= i < before.len() && #[trigger] before[i].generation == generation;
                    assert(before[i].generation != generation);
                }
            }
        }
        self.history.push(Strategy::new(strategy, generation));
        sort_by_generation(&mut self.history);
        proof {
            if strictly_increasing(before) {
                lemma_adopt_step(before, strategy, generation, self.history@);
            }
        }
    }

    /// Get the strategy at a specific generation.
    /// Returns the most recently adopted strategy at or before this generation.
    pub fn strategy_at(&self, generation: usize) -> (r: Option<TernaryStrategy>)
        ensures
            r == strategy_at_spec(self.history@, generation),
    {
        let ghost h = self.history@;
        let mut i = self.history.len();
        proof {
            assert(h.take(i as int) =~= h);
        }
        while i > 0
            invariant
                i <= h.len(),
                h == self.history@,
                strategy_at_spec(h, generation) == strategy_at_spec(h.take(i as int), generation),
            decreases i,
        {
            proof {
                lemma_take_drop_last(h, i as int);
            }
            if self.history[i - 1].generation <= generation {
                return Some(self.history[i - 1].strategy);
            }
            i = i - 1;
        }
        None
    }

    /// Number of strategy changes (transitions) in the trajectory.
    pub fn transition_count(&self) -> (r: usize)
        ensures
            r == transitions(self.history@),
    {
        let ghost h = self.history@;
        let n = self.history.len();
        if n <= 1 {
            return 0;
        }
        let mut count: usize = 0;
        let mut k: usize = 0;
        proof {
            assert(h.take(1).len() == 1);
        }
        while k + 1 < n
            invariant
                n == h.len(),
                h == self.history@,
                n >= 2,
                k + 1 <= n,
                count <= k,
                count == transitions(h.take(k as int + 1)),
            decreases n - k,
        {
            proof {
                lemma_take_drop_last(h, k as int + 2);
                assert(h.take(k as int + 2)[k as int] == h[k as int]);
            }
            if self.history[k].strategy != self.history[k + 1].strategy {
                count = count + 1;
            }
            k = k + 1;
        }
        proof {
            assert(h.take(n as int) =~= h);
        }
        count
    }

    /// Total number of recorded strategy entries.
    pub fn len(&self) -> (r: usize)
        ensures
            r == self.history@.len(),
    {
        self.history.len()
    }

    /// Whether the trajectory is empty.
    pub fn is_empty(&self) -> (r: bool)
        ensures
            r == (self.history@.len() == 0),
    {
        self.history.len() == 0
    }

    /// The first strategy adopted.
    pub fn first_strategy(&self) -> (r: Option<TernaryStrategy>)
        ensures
            r == (if self.history@.len() == 0 {
                None
            } else {
                Some(self.history@[0].strategy)
            }),
    {
        if self.history.len() == 0 {
            None
        } else {
            Some(self.history[0].strategy)
        }
    }

    /// The most recent strategy adopted.
    pub fn current_strategy(&self) -> (r: Option<TernaryStrategy>)
        ensures
            r == (if self.history@.len() == 0 {
                None
            } else {
                Some(self.history@.last().strategy)
            }),
    {
        let n = self.history.len();
        if n == 0 {
            None
        } else {
            Some(self.history[n - 1].strategy)
        }
    }

    /// The generation at which this agent first appeared.
    pub fn first_generation(&self) -> (r: Option<usize>)
        ensures
            r == (if self.history@.len() == 0 {
                None
            } else {
                Some(self.history@[0].generation)
            }),
    {
        if self.history.len() == 0 {
            None
        } else {
            Some(self.history[0].generation)
        }
    }

    /// Count how many generations the agent used each strategy, indexed
    /// avoid, cooperate, exploit. The history must run in generation order.
    pub fn strategy_durations(&self) -> (r: [usize; 3])
        requires
            sorted_by_generation(self.history@),
        ensures
            r[0] == time_in(self.history@, TernaryStrategy::Avoid),
            r[1] == time_in(self.history@, TernaryStrategy::Cooperate),
            r[2] == time_in(self.history@, TernaryStrategy::Exploit),
            self.history@.len() > 0 ==> r[0] + r[1] + r[2] == self.history@.last().generation
                - self.history@[0].generation,
    {
        let ghost h = self.history@;
        let n = self.history.len();
        let mut avoid: usize = 0;
        let mut cooperate: usize = 0;
        let mut exploit: usize = 0;
        if n == 0 {
            return [avoid, cooperate, exploit];
        }
        let mut k: usize = 0;
        while k + 1 < n
            invariant
                n == h.len(),
                h == self.history@,
                n >= 1,
                k + 1 <= n,
                sorted_by_generation(h),
                avoid == time_in(h.take(k as int + 1), TernaryStrategy::Avoid),
                cooperate == time_in(h.take(k as int + 1), TernaryStrategy::Cooperate),
                exploit == time_in(h.take(k as int + 1), TernaryStrategy::Exploit),
                avoid + cooperate + exploit == h[k as int].generation - h[0].generation,
            decreases n - k,
        {
            proof {
                lemma_take_drop_last(h, k as int + 2);
                assert(h.take(k as int + 2)[k as int] == h[k as int]);
                assert(h[k as int].generation_of() <= h[k as int + 1].generation_of());
                lemma_time_in_nonneg(h.take(k as int + 1), TernaryStrategy::Avoid);
                lemma_time_in_nonneg(h.take(k as int + 1), TernaryStrategy::Cooperate);
                lemma_time_in_nonneg(h.take(k as int + 1), TernaryStrategy::Exploit);
                assert(h[0].generation_of() <= h[k as int].generation_of());
            }
            let step = self.history[k + 1].generation - self.history[k].generation;
            match self.history[k].strategy {
                TernaryStrategy::Avoid => avoid = avoid + step,
                TernaryStrategy::Cooperate => cooperate = cooperate + step,
                TernaryStrategy::Exploit => exploit = exploit + step,
            }
            k = k + 1;
        }
        proof {
            assert(h.take(n as int) =~= h);
        }
        [avoid, cooperate, exploit]
    }

    /// Check if the agent is "loyal" — never changed strategy.
    pub fn is_loyal(&self) -> (r: bool)
        ensures
            r == (transitions(self.history@) == 0 && self.history@.len() > 0),
            r <==> (self.history@.len() > 0 && single_strategy(self.history@)),
    {
        proof {
            if self.history@.len() > 0 {
                lemma_transitions_zero(self.history@);
            }
        }
        self.transition_count() == 0 && self.history.len() > 0
    }

    /// Check if the agent oscillates — switches back to a previous strategy.
    pub fn is_oscillator(&self) -> (r: bool)
        ensures
            r == switches_back(self.history@),
            r ==> transitions(self.history@) >= 2,
    {
        let ghost h = self.history@;
        let n = self.history.len();
        let mut j: usize = 1;
        while j < n
            invariant
                h == self.history@,
                n == h.len(),
                1 <= j,
                forall|a: int, b: int| b < j ==> !#[trigger] returns_to(h, a, b),
            decreases n - j,
        {
            if self.history[j - 1].strategy != self.history[j].strategy {
                let mut i: usize = 0;
                while i < j
                    invariant
                        h == self.history@,
                        n == h.len(),
                        1 <= j < n,
                        i <= j,
                        h[j as int - 1].strategy != h[j as int].strategy,
                        forall|a: int| 0 <= a < i ==> #[trigger] h[a].strategy != h[j as int].strategy,
                    decreases j - i,
                {
                    if self.history[i].strategy == self.history[j].strategy {
                        proof {
                            assert(returns_to(h, i as int, j as int));
                            lemma_switch_back_transitions(h);
                        }
                        return true;
                    }
                    i = i + 1;
                }
            }
            proof {
                assert forall|a: int, b: int| b < j + 1 implies !#[trigger] returns_to(h, a, b) by {
                    if b == j && returns_to(h, a, b) {
                        assert(h[a].strategy != h[j as int].strategy);
                    }
                }
            }
            j = j + 1;
        }
        proof {
            assert(!switches_back(h)) by {
                if switches_back(h) {
                    let (a, b) = choose|a: int, b: int| #[trigger] returns_to(h, a, b);
                    assert(!returns_to(h, a, b));
                }
            }
        }
        false
    }
}

} // verus!
