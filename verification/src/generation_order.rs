//! Records stamped with a generation, and a stable sort of such records by
//! generation.
use vstd::prelude::*;

verus! {

broadcast use vstd::seq_lib::group_seq_properties;

/// A record stamped with the generation it belongs to.
pub trait Generational: Sized {
    spec fn generation_of(&self) -> usize;

    fn generation(&self) -> (g: usize)
        ensures
            g == self.generation_of(),
    ;
}

/// The predicate "belongs to generation `g`".
pub open spec fn in_generation<T: Generational>(g: usize) -> spec_fn(T) -> bool {
    |x: T| x.generation_of() == g
}

/// The records of `s` that belong to generation `g`, in their order in `s`.
pub open spec fn with_generation<T: Generational>(s: Seq<T>, g: usize) -> Seq<T> {
    s.filter(in_generation::<T>(g))
}

/// Generations never decrease along `s`.
pub open spec fn sorted_by_generation<T: Generational>(s: Seq<T>) -> bool {
    forall|i: int, j: int|
        0 <= i <= j < s.len() ==> #[trigger] s[i].generation_of() <= #[trigger] s[j].generation_of()
}

/// `out` is what a stable sort by generation makes of `inp`: its generations
/// never decrease, and for each generation it holds exactly the records of
/// `inp` of that generation, in their order in `inp`.
pub open spec fn is_stable_sort_by_generation<T: Generational>(out: Seq<T>, inp: Seq<T>) -> bool {
    &&& sorted_by_generation(out)
    &&& forall|g: usize| #[trigger] with_generation(out, g) == with_generation(inp, g)
}

/// Law: a record belongs to generation `g` exactly when its generation is `g`.
pub proof fn lemma_in_generation<T: Generational>(x: T, g: usize)
    ensures
        in_generation::<T>(g)(x) == (x.generation_of() == g),
{
}

/// Law: `first_only` keeps the first record of a non-empty sequence and
/// nothing else.
pub proof fn lemma_first_only<T>(q: Seq<T>)
    ensures
        first_only(q).len() == if q.len() == 0 {
            0int
        } else {
            1int
        },
        q.len() > 0 ==> first_only(q)[0] == q[0],
{
}

/// Filtering a sequence none of whose records belongs to `g` gives nothing.
pub proof fn lemma_with_generation_none<T: Generational>(s: Seq<T>, g: usize)
    requires
        forall|k: int| 0 <= k < s.len() ==> #[trigger] s[k].generation_of() != g,
    ensures
        with_generation(s, g) == Seq::<T>::empty(),
    decreases s.len(),
{
    reveal(Seq::filter);
    if s.len() > 0 {
        lemma_with_generation_none(s.drop_last(), g);
    }
}

/// Filtering a concatenation of three pieces filters each piece.
pub proof fn lemma_with_generation_split3<T: Generational>(a: Seq<T>, b: Seq<T>, c: Seq<T>, g: usize)
    ensures
        with_generation(a + b + c, g) == with_generation(a, g) + with_generation(b, g)
            + with_generation(c, g),
{
    Seq::filter_distributes_over_add(a + b, c, in_generation::<T>(g));
    Seq::filter_distributes_over_add(a, b, in_generation::<T>(g));
}

/// Filtering a one-record sequence.
pub proof fn lemma_with_generation_single<T: Generational>(x: T, g: usize)
    ensures
        with_generation(seq![x], g) == (if x.generation_of() == g {
            seq![x]
        } else {
            Seq::<T>::empty()
        }),
{
    Seq::<T>::empty().lemma_filter_push(x, in_generation::<T>(g));
    assert(Seq::<T>::empty().push(x) == seq![x]);
    reveal(Seq::filter);
}

/// Inserting `x` into a sorted sequence just before its first record of a
/// later generation keeps it sorted, and appends `x` to its generation.
pub proof fn lemma_insert_after_not_later<T: Generational>(out: Seq<T>, p: int, x: T)
    requires
        0 <= p <= out.len(),
        sorted_by_generation(out),
        forall|k: int| 0 <= k < p ==> #[trigger] out[k].generation_of() <= x.generation_of(),
        forall|k: int| p <= k < out.len() ==> #[trigger] out[k].generation_of() > x.generation_of(),
    ensures
        sorted_by_generation(out.insert(p, x)),
        forall|g: usize| #[trigger]
            with_generation(out.insert(p, x), g) == with_generation(out.push(x), g),
{
    let new = out.insert(p, x);
    assert forall|i: int, j: int| 0 <= i <= j < new.len() implies #[trigger] new[i].generation_of()
        <= #[trigger] new[j].generation_of() by {
        if i < p && j < p {
        } else if i < p && j == p {
        } else if i < p {
            assert(new[j] == out[j - 1]);
        } else if i == p && j == p {
        } else if i == p {
            assert(new[j] == out[j - 1]);
        } else {
            assert(new[i] == out[i - 1]);
            assert(new[j] == out[j - 1]);
        }
    }
    assert forall|g: usize| #[trigger]
        with_generation(out.insert(p, x), g) == with_generation(out.push(x), g) by {
        let a = out.take(p);
        let c = out.skip(p);
        assert(new == a + seq![x] + c);
        assert(out == a + c);
        lemma_with_generation_split3(a, seq![x], c, g);
        lemma_with_generation_single(x, g);
        Seq::filter_distributes_over_add(a, c, in_generation::<T>(g));
        out.lemma_filter_push(x, in_generation::<T>(g));
        if x.generation_of() == g {
            lemma_with_generation_none(c, g);
            assert(with_generation(new, g) == with_generation(a, g) + seq![x]);
            assert(with_generation(out, g) == with_generation(a, g));
        } else {
            assert(with_generation(new, g) == with_generation(a, g) + with_generation(c, g));
        }
    }
}

/// Filtering by generation peels the last record off the end.
pub proof fn lemma_with_generation_drop_last<T: Generational>(s: Seq<T>, g: usize)
    requires
        s.len() > 0,
    ensures
        with_generation(s, g) == (if s.last().generation_of() == g {
            with_generation(s.drop_last(), g).push(s.last())
        } else {
            with_generation(s.drop_last(), g)
        }),
{
    reveal(Seq::filter);
}

/// If a record of generation `g` is filtered out of `s`, then `s` holds a
/// record of generation `g`.
proof fn lemma_with_generation_witness<T: Generational>(s: Seq<T>, g: usize, x: T)
    requires
        with_generation(s, g).contains(x),
    ensures
        exists|k: int| 0 <= k < s.len() && #[trigger] s[k] == x && x.generation_of() == g,
{
    s.lemma_filter_contains_rev(in_generation::<T>(g), x);
    let i = choose|i: int| 0 <= i < with_generation(s, g).len() && with_generation(s, g)[i] == x;
    s.lemma_filter_pred(in_generation::<T>(g), i);
    let k = choose|k: int| 0 <= k < s.len() && s[k] == x;
    assert(s[k] == x);
}

/// A stable sort by generation has only one possible outcome: two sequences
/// sorted by generation that agree on every generation are equal.
pub proof fn lemma_stable_sort_unique<T: Generational>(a: Seq<T>, b: Seq<T>)
    requires
        sorted_by_generation(a),
        sorted_by_generation(b),
        forall|g: usize| #[trigger] with_generation(a, g) == with_generation(b, g),
    ensures
        a == b,
    decreases a.len() + b.len(),
{
    if a.len() == 0 && b.len() == 0 {
        assert(a =~= b);
    } else if a.len() == 0 || b.len() == 0 {
        let (e, other) = if a.len() == 0 { (b, a) } else { (a, b) };
        let y = e.last();
        lemma_with_generation_drop_last(e, y.generation_of());
        assert(with_generation(a, y.generation_of()) == with_generation(b, y.generation_of()));
        reveal(Seq::filter);
        assert(with_generation(other, y.generation_of()).len() == 0);
        assert(false);
    } else {
        let x = a.last();
        let y = b.last();
        let m = x.generation_of();
        let mp = y.generation_of();
        lemma_with_generation_drop_last(a, m);
        lemma_with_generation_drop_last(b, m);
        lemma_with_generation_drop_last(a, mp);
        lemma_with_generation_drop_last(b, mp);
        assert(with_generation(a, m) == with_generation(b, m));
        assert(with_generation(a, mp) == with_generation(b, mp));
        assert(with_generation(a, m).last() == x);
        assert(with_generation(b, m).contains(x));
        lemma_with_generation_witness(b, m, x);
        let kb = choose|k: int| 0 <= k < b.len() && #[trigger] b[k] == x && x.generation_of() == m;
        assert(b[kb].generation_of() <= b[b.len() - 1].generation_of());
        assert(with_generation(b, mp).last() == y);
        assert(with_generation(a, mp).contains(y));
        lemma_with_generation_witness(a, mp, y);
        let ka = choose|k: int| 0 <= k < a.len() && #[trigger] a[k] == y && y.generation_of() == mp;
        assert(a[ka].generation_of() <= a[a.len() - 1].generation_of());
        assert(m == mp);
        assert(x == y);
        let a1 = a.drop_last();
        let b1 = b.drop_last();
        assert forall|g: usize| #[trigger] with_generation(a1, g) == with_generation(b1, g) by {
            assert(with_generation(a, g) == with_generation(b, g));
            lemma_with_generation_drop_last(a, g);
            lemma_with_generation_drop_last(b, g);
            if g == m {
                assert(with_generation(a1, g) == with_generation(a, g).drop_last());
                assert(with_generation(b1, g) == with_generation(b, g).drop_last());
            }
        }
        assert forall|i: int, j: int| 0 <= i <= j < a1.len() implies #[trigger] a1[i].generation_of()
            <= #[trigger] a1[j].generation_of() by {
            assert(a1[i] == a[i] && a1[j] == a[j]);
        }
        assert forall|i: int, j: int| 0 <= i <= j < b1.len() implies #[trigger] b1[i].generation_of()
            <= #[trigger] b1[j].generation_of() by {
            assert(b1[i] == b[i] && b1[j] == b[j]);
        }
        lemma_stable_sort_unique(a1, b1);
        assert(a =~= a1.push(x));
        assert(b =~= b1.push(y));
    }
}

/// Sorts `v` by generation, keeping records of one generation in their order.
pub fn sort_by_generation<T: Generational>(v: &mut Vec<T>)
    ensures
        is_stable_sort_by_generation(final(v)@, old(v)@),
        final(v)@.len() == old(v)@.len(),
{
    let ghost orig = v@;
    let mut out: Vec<T> = Vec::new();
    let ghost mut taken: int = 0;
    while v.len() > 0
        invariant
            0 <= taken <= orig.len(),
            v@ == orig.skip(taken),
            out@.len() == taken,
            sorted_by_generation(out@),
            forall|g: usize| #[trigger] with_generation(out@, g) == with_generation(orig.take(taken), g),
        decreases v@.len(),
    {
        let x = v.remove(0);
        let g = x.generation();
        let mut p = out.len();
        while p > 0 && out[p - 1].generation() > g
            invariant
                p <= out@.len(),
                sorted_by_generation(out@),
                forall|k: int| p <= k < out@.len() ==> #[trigger] out@[k].generation_of() > g,
            decreases p,
        {
            p = p - 1;
        }
        proof {
            assert forall|k: int| 0 <= k < p implies #[trigger] out@[k].generation_of() <= g by {
                assert(out@[k].generation_of() <= out@[p - 1].generation_of());
            }
            lemma_insert_after_not_later(out@, p as int, x);
            assert(x == orig[taken]);
            assert(orig.take(taken + 1) == orig.take(taken).push(x));
            assert forall|h: usize| #[trigger] with_generation(out@.push(x), h) == with_generation(
                orig.take(taken + 1),
                h,
            ) by {
                assert(with_generation(out@, h) == with_generation(orig.take(taken), h));
                out@.lemma_filter_push(x, in_generation::<T>(h));
                orig.take(taken).lemma_filter_push(x, in_generation::<T>(h));
            }
        }
        out.insert(p, x);
        proof {
            taken = taken + 1;
            assert(v@ == orig.skip(taken));
        }
    }
    proof {
        assert(orig.take(taken) == orig);
    }
    *v = out;
}

/// What removing every record whose generation repeats that of the record
/// just before it leaves of `s`.
pub open spec fn dedup_spec<T: Generational>(s: Seq<T>) -> Seq<T>
    decreases s.len(),
{
    if s.len() == 0 {
        s
    } else if s.len() == 1 || s[s.len() - 2].generation_of() != s.last().generation_of() {
        dedup_spec(s.drop_last()).push(s.last())
    } else {
        dedup_spec(s.drop_last())
    }
}

/// The first record of `q`, if any, as a sequence of at most one.
pub open spec fn first_only<T>(q: Seq<T>) -> Seq<T> {
    if q.len() == 0 {
        Seq::empty()
    } else {
        seq![q[0]]
    }
}

/// Generations strictly increase along `s`.
pub open spec fn strictly_increasing_generations<T: Generational>(s: Seq<T>) -> bool {
    forall|i: int, j: int|
        0 <= i < j < s.len() ==> #[trigger] s[i].generation_of() < #[trigger] s[j].generation_of()
}

/// Removing repeats from a sequence sorted by generation keeps, of each
/// generation, its first record, and leaves the generations strictly
/// increasing.
pub proof fn lemma_dedup_sorted<T: Generational>(s: Seq<T>)
    requires
        sorted_by_generation(s),
    ensures
        strictly_increasing_generations(dedup_spec(s)),
        s.len() > 0 ==> dedup_spec(s).len() > 0 && dedup_spec(s).last().generation_of()
            == s.last().generation_of(),
        forall|g: usize| #[trigger] with_generation(dedup_spec(s), g) == first_only(
            with_generation(s, g),
        ),
    decreases s.len(),
{
    if s.len() == 0 {
        assert forall|g: usize| #[trigger] with_generation(dedup_spec(s), g) == first_only(
            with_generation(s, g),
        ) by {
            reveal(Seq::filter);
        }
    } else {
        let d = s.drop_last();
        let x = s.last();
        assert(sorted_by_generation(d)) by {
            assert forall|i: int, j: int| 0 <= i <= j < d.len() implies #[trigger] d[i].generation_of()
                <= #[trigger] d[j].generation_of() by {
                assert(s[i].generation_of() <= s[j].generation_of());
            }
        }
        lemma_dedup_sorted(d);
        let dd = dedup_spec(d);
        if s.len() == 1 || s[s.len() - 2].generation_of() != x.generation_of() {
            assert(dedup_spec(s) == dd.push(x));
            if s.len() > 1 {
                assert(s[s.len() - 2].generation_of() <= x.generation_of());
                assert(d.last() == s[s.len() - 2]);
            }
            assert forall|i: int, j: int|
                0 <= i < j < dd.push(x).len() implies #[trigger] dd.push(x)[i].generation_of()
                < #[trigger] dd.push(x)[j].generation_of() by {
                if j == dd.len() {
                    assert(dd[i].generation_of() <= dd.last().generation_of());
                }
            }
            assert forall|g: usize| #[trigger] with_generation(dedup_spec(s), g) == first_only(
                with_generation(s, g),
            ) by {
                assert(with_generation(dd, g) == first_only(with_generation(d, g)));
                dd.lemma_filter_push(x, in_generation::<T>(g));
                lemma_with_generation_drop_last(s, g);
                if x.generation_of() == g && s.len() > 1 {
                    assert forall|k: int| 0 <= k < d.len() implies #[trigger] d[k].generation_of()
                        != g by {
                        assert(d[k].generation_of() <= d.last().generation_of());
                    }
                    lemma_with_generation_none(d, g);
                    assert forall|k: int| 0 <= k < dd.len() implies #[trigger] dd[k].generation_of()
                        != g by {
                        if k < dd.len() - 1 {
                            assert(dd[k].generation_of() < dd.last().generation_of());
                        }
                    }
                    lemma_with_generation_none(dd, g);
                } else if x.generation_of() == g {
                    assert(d.len() == 0);
                    reveal(Seq::filter);
                }
            }
        } else {
            assert(dedup_spec(s) == dd);
            assert(d.last() == s[s.len() - 2]);
            assert forall|g: usize| #[trigger] with_generation(dedup_spec(s), g) == first_only(
                with_generation(s, g),
            ) by {
                assert(with_generation(dd, g) == first_only(with_generation(d, g)));
                lemma_with_generation_drop_last(s, g);
                if x.generation_of() == g {
                    lemma_with_generation_drop_last(d, g);
                    assert(with_generation(d, g).len() > 0);
                    assert(with_generation(s, g)[0] == with_generation(d, g)[0]);
                }
            }
        }
    }
}

/// Removes every record whose generation repeats that of the record just
/// before it.
pub fn dedup_by_generation<T: Generational>(v: &mut Vec<T>)
    ensures
        final(v)@ == dedup_spec(old(v)@),
{
    let ghost orig = v@;
    let mut out: Vec<T> = Vec::new();
    let mut last_generation: usize = 0;
    let ghost mut taken: int = 0;
    while v.len() > 0
        invariant
            0 <= taken <= orig.len(),
            v@ == orig.skip(taken),
            out@ == dedup_spec(orig.take(taken)),
            taken > 0 ==> last_generation == orig[taken - 1].generation_of(),
        decreases v@.len(),
    {
        let x = v.remove(0);
        let g = x.generation();
        proof {
            assert(x == orig[taken]);
            assert(orig.take(taken + 1).drop_last() == orig.take(taken));
            assert(orig.take(taken + 1).last() == x);
            if taken > 0 {
                assert(orig.take(taken + 1)[taken - 1] == orig[taken - 1]);
            }
        }
        if out.len() == 0 || last_generation != g {
            proof {
                if out.len() == 0 && taken > 0 {
                    lemma_dedup_nonempty(orig.take(taken));
                }
            }
            out.push(x);
        }
        last_generation = g;
        proof {
            taken = taken + 1;
            assert(v@ == orig.skip(taken));
        }
    }
    proof {
        assert(orig.take(taken) == orig);
    }
    *v = out;
}

/// Removing repeats from a non-empty sequence leaves something.
proof fn lemma_dedup_nonempty<T: Generational>(s: Seq<T>)
    requires
        s.len() > 0,
    ensures
        dedup_spec(s).len() > 0,
    decreases s.len(),
{
    if s.len() > 1 {
        lemma_dedup_nonempty(s.drop_last());
    }
}

} // verus!
