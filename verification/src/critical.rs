//! Critical points of population time series: their kinds, the points
//! themselves, and the choice of plateau starts.
use vstd::prelude::*;

use crate::generation_order::{is_stable_sort_by_generation, sort_by_generation, Generational};

verus! {

/// Classification of critical point types.
#[derive(Debug, Clone, Copy, PartialEq, Eq, Structural)]
pub enum CriticalKind {
    /// Fitness plateau: fitness stops increasing.
    FitnessPlateau,
    /// Diversity cliff: sharp drop in diversity.
    DiversityCliff,
    /// Diversity floor: diversity hits near-zero.
    DiversityFloor,
    /// Avoidance spike: sudden increase in avoidance.
    AvoidanceSpike,
    /// Population crash: significant population loss.
    PopulationCrash,
}

/// A detected critical point in the time series.
///
/// The metric value is kept as the bit pattern of its `f64` (`f64::to_bits`).
#[derive(Debug, Clone, Copy, PartialEq, Eq, Structural)]
pub struct CriticalPoint {
    /// Generation at which the critical point occurs.
    pub generation: usize,
    /// The metric value at this point, as the bits of an `f64`.
    pub value_bits: u64,
    /// Kind of critical point.
    pub kind: CriticalKind,
}

impl Generational for CriticalPoint {
    open spec fn generation_of(&self) -> usize {
        self.generation
    }

    fn generation(&self) -> (g: usize) {
        self.generation
    }
}

/// Orders the critical points found by several detectors by generation;
/// points of one generation keep the order in which they were found.
pub fn sort_points_by_generation(points: &mut Vec<CriticalPoint>)
    ensures
        is_stable_sort_by_generation(final(points)@, old(points)@),
        final(points)@.len() == old(points)@.len(),
        forall|i: int, j: int|
            0 <= i <= j < final(points)@.len() ==> #[trigger] final(points)@[i].generation
                <= #[trigger] final(points)@[j].generation,
{
    sort_by_generation(points);
    proof {
        assert forall|i: int, j: int|
            0 <= i <= j < points@.len() implies #[trigger] points@[i].generation
            <= #[trigger] points@[j].generation by {
            assert(points@[i].generation_of() <= points@[j].generation_of());
        }
    }
}

/// Law: critical points are ordered by their generation field, not by their
/// value or kind.
pub proof fn lemma_point_generation(p: CriticalPoint)
    ensures
        p.generation_of() == p.generation,
{
}

/// How far the scan moves past a plateau of `window` generations.
pub open spec fn plateau_stride(window: usize) -> int {
    if window > 0 {
        window as int
    } else {
        1
    }
}

/// The plateau starts that a scan from window `i` on picks: the first flat
/// window, then the first flat window after the plateau it starts, and so on.
/// `flat[i]` says whether the window of generations starting at `i` is flat.
pub open spec fn plateau_starts_from(flat: Seq<bool>, window: usize, i: int) -> Seq<int>
    decreases (if i <= flat.len() {
        flat.len() - i
    } else {
        0
    }),
{
    if i < 0 || i >= flat.len() {
        Seq::empty()
    } else if flat[i] {
        let stride: int = if window > 0 {
            window as int
        } else {
            1
        };
        seq![i] + plateau_starts_from(flat, window, i + stride)
    } else {
        plateau_starts_from(flat, window, i + 1)
    }
}

/// The plateau starts picked from a series with `flat.len()` candidate windows
/// of `window` generations each. A window of length zero would make the scan
/// stand still on a flat window; there it must find none.
pub fn plateau_starts(flat: &Vec<bool>, window: usize) -> (r: Vec<usize>)
    requires
        window > 0 || forall|i: int| 0 <= i < flat@.len() ==> !#[trigger] flat@[i],
    ensures
        r@.map_values(|s: usize| s as int) == plateau_starts_from(flat@, window, 0),
{
    let n = flat.len();
    let mut r: Vec<usize> = Vec::new();
    let mut i: usize = 0;
    while i < n
        invariant
            n == flat@.len(),
            window > 0 || forall|k: int| 0 <= k < flat@.len() ==> !#[trigger] flat@[k],
            r@.map_values(|s: usize| s as int) + plateau_starts_from(flat@, window, i as int)
                == plateau_starts_from(flat@, window, 0),
        decreases n - i,
    {
        if flat[i] {
            r.push(i);
            proof {
                let before = r@.drop_last().map_values(|s: usize| s as int);
                assert(r@.map_values(|s: usize| s as int) =~= before.push(i as int));
                assert(before.push(i as int) + plateau_starts_from(flat@, window, i + plateau_stride(window))
                    =~= before + plateau_starts_from(flat@, window, i as int));
            }
            if n - i <= window {
                i = n;
            } else {
                i = i + window;
            }
        } else {
            i = i + 1;
        }
    }
    proof {
        assert(r@.map_values(|s: usize| s as int) =~= r@.map_values(|s: usize| s as int)
            + plateau_starts_from(flat@, window, i as int));
    }
    r
}

/// Law: the plateau starts run in increasing order, at least a window apart,
/// and each starts a flat window.
pub proof fn lemma_plateau_starts_spaced(flat: Seq<bool>, window: usize, i: int)
    requires
        0 <= i,
    ensures
        forall|a: int|
            0 <= a < plateau_starts_from(flat, window, i).len() ==> {
                let s = #[trigger] plateau_starts_from(flat, window, i)[a];
                i <= s < flat.len() && flat[s]
            },
        forall|a: int, b: int|
            0 <= a < b < plateau_starts_from(flat, window, i).len() ==> #[trigger] plateau_starts_from(
                flat,
                window,
                i,
            )[a] + plateau_stride(window) <= #[trigger] plateau_starts_from(flat, window, i)[b],
    decreases (if i <= flat.len() {
        flat.len() - i
    } else {
        0
    }),
{
    if i < flat.len() {
        if flat[i] {
            let rest = plateau_starts_from(flat, window, i + plateau_stride(window));
            lemma_plateau_starts_spaced(flat, window, i + plateau_stride(window));
            let all = plateau_starts_from(flat, window, i);
            assert(all == seq![i] + rest);
            assert forall|a: int| 0 <= a < all.len() implies {
                let s = #[trigger] all[a];
                i <= s < flat.len() && flat[s]
            } by {
                if a > 0 {
                    assert(all[a] == rest[a - 1]);
                }
            }
            assert forall|a: int, b: int| 0 <= a < b < all.len() implies #[trigger] all[a]
                + plateau_stride(window) <= #[trigger] all[b] by {
                assert(all[b] == rest[b - 1]);
                if a > 0 {
                    assert(all[a] == rest[a - 1]);
                }
            }
        } else {
            lemma_plateau_starts_spaced(flat, window, i + 1);
            assert(plateau_starts_from(flat, window, i) == plateau_starts_from(flat, window, i + 1));
        }
    } else {
        assert(plateau_starts_from(flat, window, i).len() == 0);
    }
}

/// Law: a flat window that the scan does not pick lies inside a plateau that
/// it picked before.
pub proof fn lemma_plateau_starts_cover(flat: Seq<bool>, window: usize, i: int, w: int)
    requires
        0 <= i <= w < flat.len(),
        flat[w],
    ensures
        exists|a: int|
            0 <= a < plateau_starts_from(flat, window, i).len() && {
                let s = #[trigger] plateau_starts_from(flat, window, i)[a];
                s <= w < s + plateau_stride(window)
            },
    decreases flat.len() - i,
{
    let all = plateau_starts_from(flat, window, i);
    if flat[i] {
        assert(all[0] == i);
        if w >= i + plateau_stride(window) {
            lemma_plateau_starts_cover(flat, window, i + plateau_stride(window), w);
            let rest = plateau_starts_from(flat, window, i + plateau_stride(window));
            let a = choose|a: int|
                0 <= a < rest.len() && {
                    let s = #[trigger] rest[a];
                    s <= w < s + plateau_stride(window)
                };
            assert(all[a + 1] == rest[a]);
        }
    } else {
        lemma_plateau_starts_cover(flat, window, i + 1, w);
        assert(all == plateau_starts_from(flat, window, i + 1));
    }
}

} // verus!
