//! Sequences of views, of options and of truth values.
use vstd::prelude::*;

verus! {

/// The views of a sequence's items.
pub open spec fn views<T: View>(s: Seq<T>) -> Seq<T::V> {
    s.map_values(|t: T| t@)
}

/// The view of an optional value.
pub open spec fn opt_view<T: View>(o: Option<T>) -> Option<T::V> {
    match o {
        Some(t) => Some(t@),
        None => None,
    }
}

/// The values that are there, in order.
pub open spec fn somes<T>(s: Seq<Option<T>>) -> Seq<T>
    decreases s.len(),
{
    if s.len() == 0 {
        Seq::empty()
    } else {
        match s.last() {
            Some(t) => somes(s.drop_last()).push(t),
            None => somes(s.drop_last()),
        }
    }
}

/// How many of the truth values hold.
pub open spec fn count_true(s: Seq<bool>) -> nat
    decreases s.len(),
{
    if s.len() == 0 {
        0
    } else {
        count_true(s.drop_last()) + if s.last() {
            1nat
        } else {
            0nat
        }
    }
}

/// `somes` and `count_true` of the first `n + 1` items, from those of the first `n`.
pub proof fn lemma_somes_step<S, T>(s: Seq<S>, f: spec_fn(S) -> Option<T>, n: int)
    requires
        0 <= n < s.len(),
    ensures
        somes(s.take(n + 1).map_values(f)) == match f(s[n]) {
            Some(t) => somes(s.take(n).map_values(f)).push(t),
            None => somes(s.take(n).map_values(f)),
        },
{
    let next = s.take(n + 1).map_values(f);
    assert(next.drop_last() =~= s.take(n).map_values(f));
    assert(next.last() == f(s[n]));
}

/// `count_true` of the first `n + 1` items, from that of the first `n`.
pub proof fn lemma_count_true_step<S>(s: Seq<S>, f: spec_fn(S) -> bool, n: int)
    requires
        0 <= n < s.len(),
    ensures
        count_true(s.take(n + 1).map_values(f)) == count_true(s.take(n).map_values(f)) + if f(
            s[n],
        ) {
            1nat
        } else {
            0nat
        },
{
    let next = s.take(n + 1).map_values(f);
    assert(next.drop_last() =~= s.take(n).map_values(f));
    assert(next.last() == f(s[n]));
}

/// No more truth values hold than there are.
pub proof fn lemma_count_true_bound(s: Seq<bool>)
    ensures
        count_true(s) <= s.len(),
    decreases s.len(),
{
    if s.len() > 0 {
        lemma_count_true_bound(s.drop_last());
    }
}

/// A value is among the ones that are there exactly when some place holds it.
pub proof fn lemma_somes_contains<T>(s: Seq<Option<T>>, t: T)
    ensures
        somes(s).contains(t) <==> exists|i: int| 0 <= i < s.len() && #[trigger] s[i] == Some(t),
    decreases s.len(),
{
    if s.len() > 0 {
        let front = s.drop_last();
        lemma_somes_contains(front, t);
        match s.last() {
            Some(last) => {
                let all = somes(front).push(last);
                if all.contains(t) {
                    let i = choose|i: int| 0 <= i < all.len() && all[i] == t;
                    if i < somes(front).len() {
                        assert(somes(front)[i] == t);
                        let j = choose|j: int|
                            0 <= j < front.len() && #[trigger] front[j] == Some(t);
                        assert(s[j] == Some(t));
                    } else {
                        assert(s[s.len() - 1] == Some(t));
                    }
                }
                if exists|i: int| 0 <= i < s.len() && #[trigger] s[i] == Some(t) {
                    let i = choose|i: int| 0 <= i < s.len() && #[trigger] s[i] == Some(t);
                    if i < s.len() - 1 {
                        assert(front[i] == Some(t));
                        let j = choose|j: int| 0 <= j < somes(front).len() && somes(front)[j] == t;
                        assert(all[j] == t);
                    } else {
                        assert(all[all.len() - 1] == t);
                    }
                }
            },
            None => {
                if exists|i: int| 0 <= i < s.len() && #[trigger] s[i] == Some(t) {
                    let i = choose|i: int| 0 <= i < s.len() && #[trigger] s[i] == Some(t);
                    assert(front[i] == Some(t));
                }
                if exists|i: int| 0 <= i < front.len() && #[trigger] front[i] == Some(t) {
                    let i = choose|i: int| 0 <= i < front.len() && #[trigger] front[i] == Some(t);
                    assert(s[i] == Some(t));
                }
            },
        }
    }
}

/// A value that is there stands behind those that are there before it.
pub proof fn lemma_somes_place<T>(s: Seq<Option<T>>, i: int)
    requires
        0 <= i < s.len(),
        s[i] is Some,
    ensures
        somes(s.take(i)).len() < somes(s).len(),
        somes(s)[somes(s.take(i)).len() as int] == s[i]->0,
{
    lemma_somes_add(s.take(i + 1), s.skip(i + 1));
    assert(s.take(i + 1) + s.skip(i + 1) =~= s);
    assert(s.take(i + 1).drop_last() =~= s.take(i));
    assert(s.take(i + 1).last() == s[i]);
}

/// The values that are there in two sequences, one behind the other.
pub proof fn lemma_somes_add<T>(a: Seq<Option<T>>, b: Seq<Option<T>>)
    ensures
        somes(a + b) == somes(a) + somes(b),
    decreases b.len(),
{
    if b.len() == 0 {
        assert(a + b =~= a);
        assert(somes(a) + somes(b) =~= somes(a));
    } else {
        lemma_somes_add(a, b.drop_last());
        assert((a + b).drop_last() =~= a + b.drop_last());
        assert((a + b).last() == b.last());
        match b.last() {
            Some(t) => {
                assert(somes(a) + somes(b.drop_last()).push(t) =~= (somes(a) + somes(
                    b.drop_last(),
                )).push(t));
            },
            None => {},
        }
    }
}

/// A value that is there, carried through a function.
pub open spec fn opt_map<T, U>(o: Option<T>, f: spec_fn(T) -> U) -> Option<U> {
    match o {
        Some(t) => Some(f(t)),
        None => None,
    }
}

/// The values that are there, each carried through a function.
pub proof fn lemma_somes_map<T, U>(s: Seq<Option<T>>, f: spec_fn(T) -> U)
    ensures
        somes(s).map_values(f) == somes(s.map_values(|o: Option<T>| opt_map(o, f))),
    decreases s.len(),
{
    let g = |o: Option<T>| opt_map(o, f);
    if s.len() == 0 {
        assert(somes(s).map_values(f) =~= somes(s.map_values(g)));
    } else {
        lemma_somes_map(s.drop_last(), f);
        assert(s.map_values(g).drop_last() =~= s.drop_last().map_values(g));
        assert(s.map_values(g).last() == g(s.last()));
        match s.last() {
            Some(t) => {
                assert(somes(s).map_values(f) =~= somes(s.drop_last()).map_values(f).push(f(t)));
            },
            None => {},
        }
    }
}

/// What is kept of the first `n + 1` items, from what is kept of the first `n`.
pub proof fn lemma_filter_step<T>(s: Seq<T>, f: spec_fn(T) -> bool, n: int)
    requires
        0 <= n < s.len(),
    ensures
        s.take(n + 1).filter(f) == if f(s[n]) {
            s.take(n).filter(f).push(s[n])
        } else {
            s.take(n).filter(f)
        },
{
    reveal(Seq::filter);
    let next = s.take(n + 1);
    assert(next.drop_last() =~= s.take(n));
    assert(next.last() == s[n]);
}

/// Values are seen item by item, and an optional value as what it holds.
pub proof fn law_values_are_seen_one_by_one<T: View>(s: Seq<T>, o: Option<T>, i: int)
    ensures
        views(s).len() == s.len(),
        0 <= i < s.len() ==> views(s)[i] == s[i]@,
        opt_view(o) is Some <==> o is Some,
        o matches Some(t) ==> opt_view(o)->0 == t@,
{
}

/// What is there comes out in order, one value for each place that holds one.
pub proof fn law_values_that_are_there_come_out<T>(s: Seq<Option<T>>, o: Option<T>)
    ensures
        somes(s.push(o)) == match o {
            Some(t) => somes(s).push(t),
            None => somes(s),
        },
        somes(Seq::<Option<T>>::empty()) == Seq::<T>::empty(),
        count_true(Seq::empty()) == 0,
        count_true(seq![true]) == 1,
        count_true(seq![false]) == 0,
{
    reveal_with_fuel(count_true, 2);
    assert(s.push(o).drop_last() =~= s);
    assert(seq![true].drop_last() =~= Seq::empty());
    assert(seq![false].drop_last() =~= Seq::empty());
}

} // verus!
