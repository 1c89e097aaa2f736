//! Stable sorting by name.
use vstd::prelude::*;

use crate::text;

verus! {

/// Something that is sorted by a name.
pub trait Named: Sized {
    spec fn sort_name(&self) -> Seq<char>;

    fn name_str(&self) -> (r: &str)
        ensures
            r@ == self.sort_name(),
    ;
}

/// The items of `s` whose key is `k`, in order.
pub open spec fn with_key<T>(s: Seq<T>, key: spec_fn(T) -> Seq<char>, k: Seq<char>) -> Seq<T>
    decreases s.len(),
{
    if s.len() == 0 {
        Seq::empty()
    } else {
        let front = with_key(s.drop_last(), key, k);
        if key(s.last()) == k {
            front.push(s.last())
        } else {
            front
        }
    }
}

/// No item comes after one with a greater key.
pub open spec fn sorted_by_key<T>(s: Seq<T>, key: spec_fn(T) -> Seq<char>) -> bool {
    forall|i: int, j: int|
        0 <= i < j < s.len() ==> !text::text_lt(key(#[trigger] s[j]), key(#[trigger] s[i]))
}

/// `to` holds the items of `from`, sorted by key, and items with the same key in the
/// order that they had.
pub open spec fn is_stable_sort<T>(
    from: Seq<T>,
    to: Seq<T>,
    key: spec_fn(T) -> Seq<char>,
) -> bool {
    &&& sorted_by_key(to, key)
    &&& forall|k: Seq<char>| #[trigger] with_key(to, key, k) == with_key(from, key, k)
}

/// The items with a key in two sequences, one behind the other.
pub proof fn lemma_with_key_add<T>(
    a: Seq<T>,
    b: Seq<T>,
    key: spec_fn(T) -> Seq<char>,
    k: Seq<char>,
)
    ensures
        with_key(a + b, key, k) == with_key(a, key, k) + with_key(b, key, k),
    decreases b.len(),
{
    if b.len() == 0 {
        assert(a + b =~= a);
        assert(with_key(a, key, k) + with_key(b, key, k) =~= with_key(a, key, k));
    } else {
        lemma_with_key_add(a, b.drop_last(), key, k);
        assert((a + b).drop_last() =~= a + b.drop_last());
        assert((a + b).last() == b.last());
        if key(b.last()) == k {
            assert((with_key(a, key, k) + with_key(b.drop_last(), key, k)).push(b.last())
                =~= with_key(a, key, k) + with_key(b.drop_last(), key, k).push(b.last()));
        }
    }
}

/// Where no item has a key, none is found.
pub proof fn lemma_with_key_none<T>(s: Seq<T>, key: spec_fn(T) -> Seq<char>, k: Seq<char>)
    requires
        forall|i: int| 0 <= i < s.len() ==> key(#[trigger] s[i]) != k,
    ensures
        with_key(s, key, k) == Seq::<T>::empty(),
    decreases s.len(),
{
    if s.len() > 0 {
        lemma_with_key_none(s.drop_last(), key, k);
    }
}

/// Mapping the items and picking by key can change places.
pub proof fn lemma_with_key_map<T, V>(
    s: Seq<T>,
    view: spec_fn(T) -> V,
    key: spec_fn(T) -> Seq<char>,
    view_key: spec_fn(V) -> Seq<char>,
    k: Seq<char>,
)
    requires
        forall|t: T| view_key(view(t)) == #[trigger] key(t),
    ensures
        with_key(s.map_values(view), view_key, k) == with_key(s, key, k).map_values(view),
    decreases s.len(),
{
    let m = s.map_values(view);
    if s.len() > 0 {
        lemma_with_key_map(s.drop_last(), view, key, view_key, k);
        assert(m.drop_last() =~= s.drop_last().map_values(view));
        assert(m.last() == view(s.last()));
        assert(view_key(m.last()) == key(s.last()));
        assert(with_key(s, key, k).map_values(view) =~= with_key(m, view_key, k));
    } else {
        assert(with_key(s, key, k).map_values(view) =~= Seq::<V>::empty());
    }
}

/// A stable sort of items is a stable sort of their models.
pub proof fn lemma_stable_sort_map<T, V>(
    from: Seq<T>,
    to: Seq<T>,
    view: spec_fn(T) -> V,
    key: spec_fn(T) -> Seq<char>,
    view_key: spec_fn(V) -> Seq<char>,
)
    requires
        is_stable_sort(from, to, key),
        forall|t: T| view_key(view(t)) == #[trigger] key(t),
    ensures
        is_stable_sort(from.map_values(view), to.map_values(view), view_key),
{
    let f = from.map_values(view);
    let g = to.map_values(view);
    assert forall|i: int, j: int| 0 <= i < j < g.len() implies !text::text_lt(
        view_key(#[trigger] g[j]),
        view_key(#[trigger] g[i]),
    ) by {
        assert(view_key(view(to[i])) == key(to[i]));
        assert(view_key(view(to[j])) == key(to[j]));
    }
    assert forall|k: Seq<char>| #[trigger] with_key(g, view_key, k) == with_key(f, view_key, k) by {
        lemma_with_key_map(to, view, key, view_key, k);
        lemma_with_key_map(from, view, key, view_key, k);
        assert(with_key(to, key, k) == with_key(from, key, k));
    }
}

/// The key of a named item.
pub open spec fn name_key<T: Named>() -> spec_fn(T) -> Seq<char> {
    |t: T| t.sort_name()
}

/// Sorts items by name; items with the same name keep their order.
pub fn sort_by_name<T: Named>(items: Vec<T>) -> (r: Vec<T>)
    ensures
        is_stable_sort(items@, r@, name_key::<T>()),
        r@.len() == items@.len(),
{
    let ghost all = items@;
    let ghost key = name_key::<T>();
    let mut rest = items;
    let mut out: Vec<T> = Vec::new();
    let ghost mut n: int = 0;
    assert(all.skip(0) =~= all);
    while rest.len() > 0
        invariant
            0 <= n <= all.len(),
            rest@ == all.skip(n),
            out@.len() == n,
            key == name_key::<T>(),
            is_stable_sort(all.take(n), out@, key),
        decreases rest.len(),
    {
        let item = rest.remove(0);
        let ghost before = out@;
        let mut at: usize = out.len();
        while at > 0 && text::less_than(item.name_str(), out[at - 1].name_str())
            invariant
                at <= out@.len(),
                forall|j: int|
                    at <= j < out@.len() ==> text::text_lt(
                        item.sort_name(),
                        (#[trigger] out@[j]).sort_name(),
                    ),
            decreases at,
        {
            at = at - 1;
        }
        out.insert(at, item);
        proof {
            let a = before.take(at as int);
            let b = before.skip(at as int);
            assert(before =~= a + b);
            assert(out@ =~= (a + seq![item]) + b);
            assert(all.take(n + 1) =~= all.take(n) + seq![item]);
            assert(key(item) == item.sort_name());
            assert forall|i: int, j: int| 0 <= i < j < out@.len() implies !text::text_lt(
                key(#[trigger] out@[j]),
                key(#[trigger] out@[i]),
            ) by {
                lemma_inserted_order(before, out@, item, at as int, i, j);
            }
            assert forall|k: Seq<char>| #[trigger] with_key(out@, key, k) == with_key(
                all.take(n + 1),
                key,
                k,
            ) by {
                assert(with_key(before, key, k) == with_key(all.take(n), key, k));
                lemma_with_key_add(a + seq![item], b, key, k);
                lemma_with_key_add(a, seq![item], key, k);
                lemma_with_key_add(a, b, key, k);
                lemma_with_key_add(all.take(n), seq![item], key, k);
                let one = with_key(seq![item], key, k);
                if key(item) == k {
                    assert forall|i: int| 0 <= i < b.len() implies key(#[trigger] b[i]) != k by {
                        assert(text::text_lt(item.sort_name(), before[at + i].sort_name()));
                        text::lemma_text_lt_total(item.sort_name(), before[at + i].sort_name());
                    }
                    lemma_with_key_none(b, key, k);
                    let e = Seq::<T>::empty();
                    let wa = with_key(a, key, k);
                    assert((wa + one) + e =~= (wa + e) + one);
                } else {
                    assert forall|i: int| 0 <= i < seq![item].len() implies key(
                        #[trigger] seq![item][i],
                    ) != k by {}
                    lemma_with_key_none(seq![item], key, k);
                    let e = Seq::<T>::empty();
                    let wa = with_key(a, key, k);
                    let wb = with_key(b, key, k);
                    assert((wa + e) + wb =~= wa + wb);
                    assert((wa + wb) + e =~= wa + wb);
                }
            }
            n = n + 1;
            assert(rest@ =~= all.skip(n));
        }
    }
    assert(all.take(n) =~= all);
    out
}

/// An item that is inserted before all greater ones keeps the order.
proof fn lemma_inserted_order<T: Named>(
    before: Seq<T>,
    after: Seq<T>,
    item: T,
    at: int,
    i: int,
    j: int,
)
    requires
        0 <= at <= before.len(),
        after == before.insert(at, item),
        sorted_by_key(before, name_key::<T>()),
        forall|m: int|
            at <= m < before.len() ==> text::text_lt(
                item.sort_name(),
                (#[trigger] before[m]).sort_name(),
            ),
        at > 0 ==> !text::text_lt(item.sort_name(), before[at - 1].sort_name()),
        0 <= i < j < after.len(),
    ensures
        !text::text_lt(after[j].sort_name(), after[i].sort_name()),
{
    let key = name_key::<T>();
    let x = if i < at {
        before[i]
    } else {
        before[i - 1]
    };
    let y = if j < at {
        before[j]
    } else {
        before[j - 1]
    };
    if i != at && j != at {
        assert(key(x) == x.sort_name() && key(y) == y.sort_name());
    } else if j == at {
        let p = before[at - 1].sort_name();
        if i < at - 1 {
            assert(!text::text_lt(key(before[at - 1]), key(before[i])));
        }
        if text::text_lt(item.sort_name(), x.sort_name()) {
            text::lemma_text_lt_total(p, x.sort_name());
            if p != x.sort_name() {
                text::lemma_text_lt_transitive(item.sort_name(), x.sort_name(), p);
            }
        }
    } else {
        text::lemma_text_lt_total(item.sort_name(), y.sort_name());
    }
}

/// There is only one stable sort of a sequence.
pub proof fn law_stable_sort_is_unique<T>(
    from: Seq<T>,
    a: Seq<T>,
    b: Seq<T>,
    key: spec_fn(T) -> Seq<char>,
)
    requires
        is_stable_sort(from, a, key),
        is_stable_sort(from, b, key),
    ensures
        a == b,
{
    assert forall|k: Seq<char>| #[trigger] with_key(a, key, k) == with_key(b, key, k) by {
        assert(with_key(a, key, k) == with_key(from, key, k));
        assert(with_key(b, key, k) == with_key(from, key, k));
    }
    lemma_same_groups_same_order(a, b, key);
}

/// Two sorted sequences with the same items under every key are the same.
proof fn lemma_same_groups_same_order<T>(
    a: Seq<T>,
    b: Seq<T>,
    key: spec_fn(T) -> Seq<char>,
)
    requires
        sorted_by_key(a, key),
        sorted_by_key(b, key),
        forall|k: Seq<char>| #[trigger] with_key(a, key, k) == with_key(b, key, k),
    ensures
        a == b,
    decreases a.len(),
{
    if a.len() == 0 {
        if b.len() > 0 {
            let k = key(b.last());
            assert(with_key(a, key, k) == with_key(b, key, k));
            assert(with_key(b, key, k).len() > 0);
        }
        assert(a =~= b);
    } else {
        let k = key(a.last());
        assert(with_key(a, key, k) == with_key(b, key, k));
        assert(with_key(a, key, k).len() > 0);
        if b.len() == 0 {
            assert(false);
        }
        let m = key(b.last());
        assert(with_key(a, key, m) == with_key(b, key, m));
        assert(with_key(b, key, m).len() > 0);
        lemma_last_is_greatest(a, key, m);
        lemma_last_is_greatest(b, key, k);
        text::lemma_text_lt_total(k, m);
        assert(k == m);
        assert(with_key(a, key, k).last() == a.last());
        assert(with_key(b, key, k).last() == b.last());
        let x = a.drop_last();
        let y = b.drop_last();
        assert forall|q: Seq<char>| #[trigger] with_key(x, key, q) == with_key(y, key, q) by {
            assert(with_key(a, key, q) == with_key(b, key, q));
            if q == k {
                assert(with_key(x, key, q) =~= with_key(a, key, q).drop_last());
                assert(with_key(y, key, q) =~= with_key(b, key, q).drop_last());
            }
        }
        lemma_same_groups_same_order(x, y, key);
        assert(a =~= x.push(a.last()));
        assert(b =~= y.push(b.last()));
    }
}

/// No item of a sorted sequence has a key greater than the last.
proof fn lemma_last_is_greatest<T>(s: Seq<T>, key: spec_fn(T) -> Seq<char>, k: Seq<char>)
    requires
        sorted_by_key(s, key),
        with_key(s, key, k).len() > 0,
    ensures
        s.len() > 0,
        !text::text_lt(key(s.last()), k),
{
    if s.len() > 0 {
        if forall|i: int| 0 <= i < s.len() ==> key(#[trigger] s[i]) != k {
            lemma_with_key_none(s, key, k);
        } else {
            let i = choose|i: int| 0 <= i < s.len() && key(#[trigger] s[i]) == k;
            if i < s.len() - 1 {
                assert(!text::text_lt(key(s[s.len() - 1]), key(s[i])));
            } else {
                text::lemma_text_lt_total(k, k);
            }
        }
    }
}

/// An item has a key in a sequence exactly when it stands among the items of that key.
pub proof fn lemma_with_key_contains<T>(
    s: Seq<T>,
    key: spec_fn(T) -> Seq<char>,
    k: Seq<char>,
    t: T,
)
    ensures
        with_key(s, key, k).contains(t) <==> s.contains(t) && key(t) == k,
    decreases s.len(),
{
    if s.len() > 0 {
        let front = s.drop_last();
        lemma_with_key_contains(front, key, k, t);
        assert(s =~= front.push(s.last()));
        lemma_push_contains(front, s.last(), t);
        lemma_push_contains(with_key(front, key, k), s.last(), t);
    }
}

/// What a longer sequence holds.
pub proof fn lemma_push_contains<T>(s: Seq<T>, last: T, t: T)
    ensures
        s.push(last).contains(t) <==> s.contains(t) || last == t,
{
    let all = s.push(last);
    if s.contains(t) {
        let i = choose|i: int| 0 <= i < s.len() && s[i] == t;
        assert(all[i] == t);
    }
    if last == t {
        assert(all[s.len() as int] == t);
    }
}

/// A stable sort holds the same items.
pub proof fn lemma_stable_sort_contains<T>(
    from: Seq<T>,
    to: Seq<T>,
    key: spec_fn(T) -> Seq<char>,
    t: T,
)
    requires
        is_stable_sort(from, to, key),
    ensures
        from.contains(t) <==> to.contains(t),
{
    lemma_with_key_contains(from, key, key(t), t);
    lemma_with_key_contains(to, key, key(t), t);
    assert(with_key(to, key, key(t)) == with_key(from, key, key(t)));
}

/// Sorting keeps every item and adds none, and puts no name before a lesser one.
pub proof fn law_sort_keeps_every_item<T>(
    from: Seq<T>,
    to: Seq<T>,
    key: spec_fn(T) -> Seq<char>,
    item: T,
)
    requires
        is_stable_sort(from, to, key),
    ensures
        from.contains(item) <==> to.contains(item),
        forall|i: int, j: int|
            0 <= i < j < to.len() ==> !text::text_lt(key(#[trigger] to[j]), key(#[trigger] to[i])),
{
    lemma_stable_sort_contains(from, to, key, item);
}

} // verus!
