//! Maps from names to values: one that keeps the order in which names came, and one
//! that keeps them in order.
use vstd::prelude::*;

use crate::text;

verus! {

/// Values by name; no name occurs twice.
#[derive(Debug)]
pub struct NameMap<V> {
    entries: Vec<(String, V)>,
}

/// The map that a list of entries stands for.
pub open spec fn entries_map<V>(entries: Seq<(String, V)>) -> Map<Seq<char>, V>
    decreases entries.len(),
{
    if entries.len() == 0 {
        Map::empty()
    } else {
        entries_map(entries.drop_last()).insert(entries.last().0@, entries.last().1)
    }
}

/// No name occurs twice.
pub open spec fn names_distinct<V>(entries: Seq<(String, V)>) -> bool {
    forall|i: int, j: int|
        0 <= i < j < entries.len() ==> (#[trigger] entries[i]).0@ != (#[trigger] entries[j]).0@
}

/// An entry's name leads to its value, and no other name is in the map.
pub proof fn lemma_entries_map<V>(entries: Seq<(String, V)>)
    requires
        names_distinct(entries),
    ensures
        forall|i: int|
            0 <= i < entries.len() ==> entries_map(entries).contains_key(
                (#[trigger] entries[i]).0@,
            ) && entries_map(entries)[entries[i].0@] == entries[i].1,
        forall|k: Seq<char>|
            #[trigger] entries_map(entries).contains_key(k) ==> exists|i: int|
                0 <= i < entries.len() && (#[trigger] entries[i]).0@ == k,
        entries_map(entries).dom().finite(),
        entries_map(entries).len() == entries.len(),
    decreases entries.len(),
{
    if entries.len() > 0 {
        let front = entries.drop_last();
        lemma_entries_map(front);
        assert forall|i: int| 0 <= i < entries.len() implies entries_map(entries).contains_key(
            (#[trigger] entries[i]).0@,
        ) && entries_map(entries)[entries[i].0@] == entries[i].1 by {
            if i < front.len() {
                assert(front[i] == entries[i]);
                assert(entries[i].0@ != entries.last().0@);
            }
        }
        assert forall|k: Seq<char>| #[trigger] entries_map(entries).contains_key(k) implies exists|
            i: int,
        |
            0 <= i < entries.len() && (#[trigger] entries[i]).0@ == k by {
            if k == entries.last().0@ {
                assert(entries[entries.len() - 1].0@ == k);
            } else {
                assert(entries_map(front).contains_key(k));
                let i = choose|i: int| 0 <= i < front.len() && (#[trigger] front[i]).0@ == k;
                assert(entries[i].0@ == k);
            }
        }
        if entries_map(front).contains_key(entries.last().0@) {
            let i = choose|i: int|
                0 <= i < front.len() && (#[trigger] front[i]).0@ == entries.last().0@;
            assert(entries[i].0@ == entries[entries.len() - 1].0@);
        }
    }
}

impl<V> View for NameMap<V> {
    type V = Map<Seq<char>, V>;

    closed spec fn view(&self) -> Map<Seq<char>, V> {
        entries_map(self.entries@)
    }
}

impl<V> NameMap<V> {
    #[verifier::type_invariant]
    spec fn distinct(&self) -> bool {
        names_distinct(self.entries@)
    }

    /// The names, in the order in which they came.
    pub closed spec fn names(&self) -> Seq<Seq<char>> {
        self.entries@.map_values(|e: (String, V)| e.0@)
    }

    /// An empty map.
    pub fn new() -> (r: Self)
        ensures
            r@ == Map::<Seq<char>, V>::empty(),
            r.names() == Seq::<Seq<char>>::empty(),
    {
        let r = NameMap { entries: Vec::new() };
        assert(r.names() =~= Seq::empty());
        r
    }

    /// How many names there are.
    pub fn len(&self) -> (r: usize)
        ensures
            r == self@.len(),
            r == self.names().len(),
    {
        proof {
            use_type_invariant(self);
            lemma_entries_map(self.entries@);
        }
        self.entries.len()
    }

    /// The value of a name.
    pub fn get(&self, name: &str) -> (r: Option<&V>)
        ensures
            match r {
                Some(v) => self@.contains_key(name@) && *v == self@[name@],
                None => !self@.contains_key(name@),
            },
    {
        proof {
            use_type_invariant(self);
            lemma_entries_map(self.entries@);
        }
        match find_name(&self.entries, name) {
            Some(i) => Some(&self.entries[i].1),
            None => None,
        }
    }

    /// Whether the name is in the map.
    pub fn contains(&self, name: &str) -> (r: bool)
        ensures
            r == self@.contains_key(name@),
    {
        self.get(name).is_some()
    }

    /// Gives a name a value, in place of the one that it may have had.
    pub fn insert(&mut self, name: String, value: V)
        ensures
            final(self)@ == old(self)@.insert(name@, value),
            final(self).names() == if old(self)@.contains_key(name@) {
                old(self).names()
            } else {
                old(self).names().push(name@)
            },
    {
        proof {
            use_type_invariant(&*self);
            lemma_entries_map(self.entries@);
        }
        let ghost before = self.entries@;
        let mut entries: Vec<(String, V)> = Vec::new();
        std::mem::swap(&mut entries, &mut self.entries);
        let found = find_name(&entries, name.as_str());
        match found {
            Some(i) => {
                let ghost key = name@;
                entries.set(i, (name, value));
                proof {
                    lemma_entries_map(entries@);
                    let a = entries_map(entries@);
                    let b = entries_map(before).insert(key, value);
                    assert forall|k: Seq<char>| #[trigger] a.contains_key(k) implies b.contains_key(
                        k,
                    ) && a[k] == b[k] by {
                        let j = choose|j: int|
                            0 <= j < entries@.len() && (#[trigger] entries@[j]).0@ == k;
                        if j != i {
                            assert(before[j] == entries@[j]);
                            assert(before[i as int].0@ == key);
                        } else {
                            assert(entries@[i as int].1 == value);
                        }
                    }
                    assert forall|k: Seq<char>| #[trigger] b.contains_key(k) implies a.contains_key(
                        k,
                    ) by {
                        if k == key {
                            assert(entries@[i as int].0@ == key);
                        } else {
                            let j = choose|j: int|
                                0 <= j < before.len() && (#[trigger] before[j]).0@ == k;
                            assert(before[j] == entries@[j]);
                        }
                    }
                    assert(a =~= b);
                    assert(entries@.map_values(|e: (String, V)| e.0@) =~= before.map_values(
                        |e: (String, V)| e.0@,
                    ));
                }
            },
            None => {
                let ghost key = name@;
                entries.push((name, value));
                proof {
                    assert(entries@.drop_last() =~= before);
                    assert(entries@.map_values(|e: (String, V)| e.0@) =~= before.map_values(
                        |e: (String, V)| e.0@,
                    ).push(key));
                    assert(!entries_map(before).contains_key(key)) by {
                        if entries_map(before).contains_key(key) {
                            let i = choose|i: int|
                                0 <= i < before.len() && (#[trigger] before[i]).0@ == key;
                            assert(before[i].0@ == key);
                        }
                    }
                }
            },
        }
        self.entries = entries;
    }

    /// The name at an index.
    pub fn name_at(&self, i: usize) -> (r: &str)
        requires
            i < self.names().len(),
        ensures
            r@ == self.names()[i as int],
    {
        self.entries[i].0.as_str()
    }

    /// The value at an index.
    pub fn value_at(&self, i: usize) -> (r: &V)
        requires
            i < self.names().len(),
        ensures
            self@.contains_key(self.names()[i as int]),
            *r == self@[self.names()[i as int]],
    {
        proof {
            use_type_invariant(self);
            lemma_entries_map(self.entries@);
        }
        &self.entries[i].1
    }
}

/// The index of a name among entries.
fn find_name<V>(entries: &Vec<(String, V)>, name: &str) -> (r: Option<usize>)
    ensures
        match r {
            Some(i) => i < entries@.len() && entries@[i as int].0@ == name@,
            None => forall|i: int| 0 <= i < entries@.len() ==> (#[trigger] entries@[i]).0@ != name@,
        },
{
    let mut i: usize = 0;
    while i < entries.len()
        invariant
            i <= entries.len(),
            forall|j: int| 0 <= j < i ==> (#[trigger] entries@[j]).0@ != name@,
        decreases entries.len() - i,
    {
        if text::str_eq(entries[i].0.as_str(), name) {
            return Some(i);
        }
        i = i + 1;
    }
    None
}

/// Values by name, in the order of their names; no name occurs twice.
#[derive(Debug)]
pub struct OrderedMap<V> {
    entries: Vec<(String, V)>,
}

/// The models of some entries.
pub open spec fn entry_views<V>(entries: Seq<(String, V)>) -> Seq<(Seq<char>, V)> {
    entries.map_values(|e: (String, V)| (e.0@, e.1))
}

/// Each name comes before the next.
pub open spec fn names_ascend<V>(entries: Seq<(Seq<char>, V)>) -> bool {
    forall|i: int, j: int|
        0 <= i < j < entries.len() ==> text::text_lt(
            (#[trigger] entries[i]).0,
            (#[trigger] entries[j]).0,
        )
}

/// How many entries at the start have a name before `name`.
pub open spec fn count_below<V>(entries: Seq<(Seq<char>, V)>, name: Seq<char>) -> nat
    decreases entries.len(),
{
    if entries.len() > 0 && text::text_lt(entries[0].0, name) {
        1 + count_below(entries.drop_first(), name)
    } else {
        0
    }
}

/// The entry at the place of a name has that name.
pub open spec fn has_name<V>(entries: Seq<(Seq<char>, V)>, name: Seq<char>) -> bool {
    let n = count_below(entries, name);
    n < entries.len() && entries[n as int].0 == name
}

/// The entries with a value for a name, in the name's place.
pub open spec fn with_entry<V>(
    entries: Seq<(Seq<char>, V)>,
    name: Seq<char>,
    value: V,
) -> Seq<(Seq<char>, V)> {
    let n = count_below(entries, name) as int;
    if has_name(entries, name) {
        entries.update(n, (name, value))
    } else {
        entries.insert(n, (name, value))
    }
}

/// The entries without the one of a name.
pub open spec fn without_entry<V>(entries: Seq<(Seq<char>, V)>, name: Seq<char>) -> Seq<
    (Seq<char>, V),
> {
    if has_name(entries, name) {
        entries.remove(count_below(entries, name) as int)
    } else {
        entries
    }
}

/// A name's place is within the entries or directly behind them.
pub proof fn lemma_count_below_bound<V>(entries: Seq<(Seq<char>, V)>, name: Seq<char>)
    ensures
        count_below(entries, name) <= entries.len(),
{
    lemma_count_below(entries, name);
}

/// Entries without one of them still ascend.
pub proof fn lemma_without_entry_ascends<V>(entries: Seq<(Seq<char>, V)>, name: Seq<char>)
    requires
        names_ascend(entries),
    ensures
        names_ascend(without_entry(entries, name)),
{
    let n = count_below(entries, name) as int;
    let after = without_entry(entries, name);
    if has_name(entries, name) {
        assert forall|i: int, j: int| 0 <= i < j < after.len() implies text::text_lt(
            (#[trigger] after[i]).0,
            (#[trigger] after[j]).0,
        ) by {
            let a = if i < n {
                i
            } else {
                i + 1
            };
            let b = if j < n {
                j
            } else {
                j + 1
            };
            assert(after[i] == entries[a] && after[j] == entries[b]);
        }
    }
}

/// Entries with a name before `name` are those before the name's place.
proof fn lemma_count_below<V>(entries: Seq<(Seq<char>, V)>, name: Seq<char>)
    ensures
        count_below(entries, name) <= entries.len(),
        forall|i: int|
            0 <= i < count_below(entries, name) ==> text::text_lt(
                (#[trigger] entries[i]).0,
                name,
            ),
        count_below(entries, name) < entries.len() ==> !text::text_lt(
            entries[count_below(entries, name) as int].0,
            name,
        ),
    decreases entries.len(),
{
    if entries.len() > 0 && text::text_lt(entries[0].0, name) {
        let rest = entries.drop_first();
        lemma_count_below(rest, name);
        assert forall|i: int| 0 <= i < count_below(entries, name) implies text::text_lt(
            (#[trigger] entries[i]).0,
            name,
        ) by {
            if i > 0 {
                assert(rest[i - 1] == entries[i]);
            }
        }
    }
}

/// An entry in its place keeps the names ascending.
pub proof fn lemma_with_entry_ascends<V>(entries: Seq<(Seq<char>, V)>, name: Seq<char>, value: V)
    requires
        names_ascend(entries),
    ensures
        names_ascend(with_entry(entries, name, value)),
{
    lemma_count_below(entries, name);
    let n = count_below(entries, name) as int;
    let after = with_entry(entries, name, value);
    assert forall|i: int, j: int| 0 <= i < j < after.len() implies text::text_lt(
        (#[trigger] after[i]).0,
        (#[trigger] after[j]).0,
    ) by {
        if !has_name(entries, name) {
            if n < entries.len() {
                text::lemma_text_lt_total(entries[n].0, name);
                if i == n && j > n + 1 {
                    text::lemma_text_lt_transitive(name, entries[n].0, entries[j - 1].0);
                }
            }
        }
    }
}

/// The name is in some ascending entries exactly when it is in its place.
pub proof fn lemma_has_name<V>(entries: Seq<(Seq<char>, V)>, name: Seq<char>)
    requires
        names_ascend(entries),
    ensures
        has_name(entries, name) <==> exists|i: int|
            0 <= i < entries.len() && (#[trigger] entries[i]).0 == name,
{
    lemma_count_below(entries, name);
    let n = count_below(entries, name) as int;
    if exists|i: int| 0 <= i < entries.len() && (#[trigger] entries[i]).0 == name {
        let i = choose|i: int| 0 <= i < entries.len() && (#[trigger] entries[i]).0 == name;
        text::lemma_text_lt_total(name, name);
        if i > n {
            text::lemma_text_lt_total(entries[n].0, name);
        }
    }
}

impl<V> View for OrderedMap<V> {
    type V = Seq<(Seq<char>, V)>;

    closed spec fn view(&self) -> Seq<(Seq<char>, V)> {
        entry_views(self.entries@)
    }
}

impl<V> OrderedMap<V> {
    #[verifier::type_invariant]
    spec fn ascends(&self) -> bool {
        names_ascend(entry_views(self.entries@))
    }

    /// An empty map.
    pub fn new() -> (r: Self)
        ensures
            r@ == Seq::<(Seq<char>, V)>::empty(),
    {
        let r = OrderedMap { entries: Vec::new() };
        assert(r@ =~= Seq::empty());
        r
    }

    /// How many names there are.
    pub fn len(&self) -> (r: usize)
        ensures
            r == self@.len(),
            names_ascend(self@),
    {
        proof {
            use_type_invariant(self);
        }
        self.entries.len()
    }

    /// The name at an index.
    pub fn name_at(&self, i: usize) -> (r: &String)
        requires
            i < self@.len(),
        ensures
            r@ == self@[i as int].0,
    {
        &self.entries[i].0
    }

    /// The value at an index.
    pub fn value_at(&self, i: usize) -> (r: &V)
        requires
            i < self@.len(),
        ensures
            *r == self@[i as int].1,
    {
        &self.entries[i].1
    }

    /// The place of a name among entries.
    fn place(entries: &Vec<(String, V)>, name: &str) -> (r: usize)
        ensures
            r == count_below(entry_views(entries@), name@),
            r <= entries@.len(),
    {
        let ghost all = entry_views(entries@);
        let mut i: usize = 0;
        assert(all.skip(0) =~= all);
        while i < entries.len() && text::less_than(entries[i].0.as_str(), name)
            invariant
                i <= entries.len(),
                all == entry_views(entries@),
                count_below(all, name@) == i + count_below(all.skip(i as int), name@),
            decreases entries.len() - i,
        {
            assert(all.skip(i as int)[0] == all[i as int]);
            assert(all.skip(i as int).drop_first() =~= all.skip(i + 1));
            i = i + 1;
        }
        assert(i < entries@.len() ==> all.skip(i as int)[0] == all[i as int]);
        i
    }

    /// The value of a name.
    pub fn get(&self, name: &str) -> (r: Option<&V>)
        ensures
            match r {
                Some(v) => has_name(self@, name@) && *v == self@[count_below(
                    self@,
                    name@,
                ) as int].1,
                None => !has_name(self@, name@),
            },
    {
        let i: usize = Self::place(&self.entries, name);
        if i < self.entries.len() && text::str_eq(self.entries[i].0.as_str(), name) {
            Some(&self.entries[i].1)
        } else {
            None
        }
    }

    /// Gives a name a value, in place of the one that it may have had.
    pub fn insert(&mut self, name: String, value: V)
        ensures
            final(self)@ == with_entry(old(self)@, name@, value),
            names_ascend(final(self)@),
    {
        proof {
            use_type_invariant(&*self);
            lemma_with_entry_ascends(self@, name@, value);
        }
        let ghost before = self@;
        let ghost key = name@;
        let mut entries: Vec<(String, V)> = Vec::new();
        std::mem::swap(&mut entries, &mut self.entries);
        let i: usize = Self::place(&entries, name.as_str());
        if i < entries.len() && text::str_eq(entries[i].0.as_str(), name.as_str()) {
            entries.set(i, (name, value));
        } else {
            entries.insert(i, (name, value));
        }
        assert(entry_views(entries@) =~= with_entry(before, key, value));
        self.entries = entries;
    }

    /// Takes the entry of a name away, and tells whether there was one.
    pub fn remove(&mut self, name: &str) -> (r: bool)
        ensures
            r == has_name(old(self)@, name@),
            final(self)@ == without_entry(old(self)@, name@),
            names_ascend(old(self)@),
            names_ascend(final(self)@),
    {
        proof {
            use_type_invariant(&*self);
            lemma_without_entry_ascends(self@, name@);
        }
        let ghost before = self@;
        let mut entries: Vec<(String, V)> = Vec::new();
        std::mem::swap(&mut entries, &mut self.entries);
        let i: usize = Self::place(&entries, name);
        let found = i < entries.len() && text::str_eq(entries[i].0.as_str(), name);
        if found {
            entries.remove(i);
        }
        assert(entry_views(entries@) =~= without_entry(before, name@));
        self.entries = entries;
        found
    }
}

/// A copy of an ordered map from names to texts.
pub fn clone_texts(map: &OrderedMap<String>) -> (r: OrderedMap<String>)
    ensures
        r@ == map@,
{
    proof {
        use_type_invariant(map);
    }
    let mut entries: Vec<(String, String)> = Vec::new();
    let mut i: usize = 0;
    while i < map.entries.len()
        invariant
            i <= map.entries@.len(),
            entries@ == map.entries@.take(i as int),
        decreases map.entries@.len() - i,
    {
        entries.push((map.entries[i].0.clone(), map.entries[i].1.clone()));
        assert(entries@ =~= map.entries@.take(i + 1));
        i = i + 1;
    }
    assert(entries@ =~= map.entries@);
    OrderedMap { entries }
}

/// `names` are the texts of `all`, each once, in ascending order.
pub open spec fn is_sorted_set(names: Seq<Seq<char>>, all: Seq<Seq<char>>) -> bool {
    &&& forall|i: int, j: int|
        0 <= i < j < names.len() ==> text::text_lt(#[trigger] names[i], #[trigger] names[j])
    &&& forall|n: Seq<char>| #[trigger] names.contains(n) <==> all.contains(n)
}

/// The names of entries.
pub open spec fn entry_names<V>(entries: Seq<(Seq<char>, V)>) -> Seq<Seq<char>> {
    entries.map_values(|e: (Seq<char>, V)| e.0)
}

/// An entry adds its name.
proof fn lemma_with_entry_names<V>(
    entries: Seq<(Seq<char>, V)>,
    name: Seq<char>,
    value: V,
    n: Seq<char>,
)
    requires
        names_ascend(entries),
    ensures
        entry_names(with_entry(entries, name, value)).contains(n) <==> entry_names(
            entries,
        ).contains(n) || n == name,
{
    lemma_count_below(entries, name);
    let at = count_below(entries, name) as int;
    let after = with_entry(entries, name, value);
    let olds = entry_names(entries);
    let news = entry_names(after);
    assert(after[at].0 == name);
    if n == name {
        assert(news[at] == n);
    }
    if olds.contains(n) {
        let i = choose|i: int| 0 <= i < olds.len() && olds[i] == n;
        if has_name(entries, name) || i < at {
            assert(news[i] == n);
        } else {
            assert(news[i + 1] == n);
        }
    }
    if news.contains(n) && n != name {
        let i = choose|i: int| 0 <= i < news.len() && news[i] == n;
        if has_name(entries, name) || i < at {
            assert(olds[i] == n);
        } else {
            assert(olds[i - 1] == n);
        }
    }
}

/// The texts of a list, each once, in ascending order.
pub fn sorted_set(all: &Vec<String>) -> (r: Vec<String>)
    ensures
        is_sorted_set(text::texts(r@), text::texts(all@)),
{
    let ghost names = text::texts(all@);
    let mut map: OrderedMap<bool> = OrderedMap::new();
    let mut i: usize = 0;
    assert(entry_names(map@) =~= Seq::empty());
    assert(names.take(0) =~= Seq::empty());
    while i < all.len()
        invariant
            i <= all@.len(),
            names == text::texts(all@),
            names_ascend(map@),
            forall|n: Seq<char>| #[trigger]
                entry_names(map@).contains(n) <==> names.take(i as int).contains(n),
        decreases all@.len() - i,
    {
        let ghost before = map@;
        map.insert(all[i].clone(), true);
        proof {
            assert forall|n: Seq<char>| #[trigger]
                entry_names(map@).contains(n) <==> names.take(i + 1).contains(n) by {
                lemma_with_entry_names(before, all@[i as int]@, true, n);
                assert(entry_names(before).contains(n) <==> names.take(i as int).contains(n));
                assert(names.take(i + 1) =~= names.take(i as int).push(names[i as int]));
                crate::order::lemma_push_contains(names.take(i as int), names[i as int], n);
            }
        }
        i = i + 1;
    }
    assert(names.take(i as int) =~= names);
    let mut out: Vec<String> = Vec::new();
    let mut j: usize = 0;
    assert(text::texts(out@) =~= entry_names(map@).take(0));
    while j < map.len()
        invariant
            j <= map@.len(),
            text::texts(out@) == entry_names(map@).take(j as int),
        decreases map@.len() - j,
    {
        let name = map.name_at(j).clone();
        proof {
            text::lemma_texts_push(out@, name);
        }
        out.push(name);
        assert(text::texts(out@) =~= entry_names(map@).take(j + 1));
        j = j + 1;
    }
    assert(text::texts(out@) =~= entry_names(map@));
    out
}

/// A name that is given a value has it and no other, and every other name keeps its own.
pub proof fn law_entry_is_set_alone<V>(
    entries: Seq<(Seq<char>, V)>,
    name: Seq<char>,
    value: V,
    other: Seq<char>,
    held: V,
)
    requires
        names_ascend(entries),
    ensures
        with_entry(entries, name, value).contains((name, value)),
        with_entry(entries, name, value).contains((name, held)) ==> held == value,
        other != name ==> (with_entry(entries, name, value).contains((other, held))
            <==> entries.contains((other, held))),
{
    let n = count_below(entries, name) as int;
    let with = with_entry(entries, name, value);
    lemma_count_below(entries, name);
    assert(with[n] == (name, value));
    assert(with.contains((name, held)) ==> held == value) by {
        if with.contains((name, held)) {
            lemma_with_entry_ascends(entries, name, value);
            let i = choose|i: int| 0 <= i < with.len() && with[i] == (name, held);
            text::lemma_text_lt_total(name, name);
            if i < n {
                assert(text::text_lt(with[i].0, with[n].0));
            } else if n < i {
                assert(text::text_lt(with[n].0, with[i].0));
            }
        }
    }
    if other != name {
        if entries.contains((other, held)) {
            let i = choose|i: int| 0 <= i < entries.len() && entries[i] == (other, held);
            let at = if has_name(entries, name) || i < n {
                i
            } else {
                i + 1
            };
            assert(with[at] == (other, held));
        }
        if with.contains((other, held)) {
            let i = choose|i: int| 0 <= i < with.len() && with[i] == (other, held);
            let at = if has_name(entries, name) || i < n {
                i
            } else {
                i - 1
            };
            assert(entries[at] == (other, held));
        }
    }
}

/// A name that is taken away is gone, and every other name keeps its value.
pub proof fn law_entry_is_removed_alone<V>(
    entries: Seq<(Seq<char>, V)>,
    name: Seq<char>,
    other: Seq<char>,
    held: V,
)
    requires
        names_ascend(entries),
    ensures
        !without_entry(entries, name).contains((name, held)),
        other != name ==> (without_entry(entries, name).contains((other, held))
            <==> entries.contains((other, held))),
{
    let n = count_below(entries, name) as int;
    let without = without_entry(entries, name);
    lemma_has_name(entries, name);
    if has_name(entries, name) {
        if entries.contains((other, held)) && other != name {
            let i = choose|i: int| 0 <= i < entries.len() && entries[i] == (other, held);
            let at = if i < n {
                i
            } else {
                i - 1
            };
            assert(without[at] == (other, held));
        }
        if without.contains((other, held)) {
            let i = choose|i: int| 0 <= i < without.len() && without[i] == (other, held);
            let at = if i < n {
                i
            } else {
                i + 1
            };
            assert(entries[at] == (other, held));
        }
    }
    if without.contains((name, held)) {
        let i = choose|i: int| 0 <= i < without.len() && without[i] == (name, held);
        text::lemma_text_lt_total(name, name);
        if has_name(entries, name) {
            if i < n {
                assert(text::text_lt(entries[i].0, entries[n].0));
            } else {
                assert(text::text_lt(entries[n].0, entries[i + 1].0));
            }
        } else {
            assert(entries[i].0 == name);
        }
    }
}

/// A sorted set holds each text of a list once and nothing else, each before the greater
/// ones.
pub proof fn law_sorted_set_holds_each_once(
    names: Seq<Seq<char>>,
    all: Seq<Seq<char>>,
    n: Seq<char>,
    i: int,
    j: int,
)
    requires
        is_sorted_set(names, all),
    ensures
        names.contains(n) <==> all.contains(n),
        0 <= i < j < names.len() ==> text::text_lt(names[i], names[j]) && names[i] != names[j],
{
    if 0 <= i < j < names.len() {
        assert(text::text_lt(names[i], names[j]));
        text::lemma_text_lt_total(names[i], names[j]);
    }
}

} // verus!
