//! A map from strings to values, kept in the code-point order of its keys.

use crate::text;
use vstd::prelude::*;

verus! {

/// The order of strings is irreflexive.
pub proof fn lemma_precedes_irreflexive(a: Seq<char>)
    ensures
        !text::precedes(a, a),
    decreases a.len(),
{
    if a.len() > 0 {
        lemma_precedes_irreflexive(a.skip(1));
    }
}

/// The order of strings is transitive.
pub proof fn lemma_precedes_transitive(a: Seq<char>, b: Seq<char>, c: Seq<char>)
    requires
        text::precedes(a, b),
        text::precedes(b, c),
    ensures
        text::precedes(a, c),
    decreases a.len(),
{
    if a.len() > 0 && a[0] == b[0] && b[0] == c[0] {
        lemma_precedes_transitive(a.skip(1), b.skip(1), c.skip(1));
    }
}

/// Of two different strings one comes first.
pub proof fn lemma_precedes_total(a: Seq<char>, b: Seq<char>)
    ensures
        text::precedes(a, b) || text::precedes(b, a) || a == b,
    decreases a.len(),
{
    if a.len() > 0 && b.len() > 0 && a[0] == b[0] {
        lemma_precedes_total(a.skip(1), b.skip(1));
        if a.skip(1) == b.skip(1) {
            assert forall|i: int| 0 <= i < a.len() implies a[i] == b[i] by {
                if i > 0 {
                    assert(a[i] == a.skip(1)[i - 1]);
                    assert(b[i] == b.skip(1)[i - 1]);
                }
            }
            assert(a.len() == a.skip(1).len() + 1);
            assert(a =~= b);
        }
    } else if a.len() == 0 && b.len() == 0 {
        assert(a =~= b);
    }
}

/// Whether the keys of `entries` are in order, each of them once.
pub open spec fn ascending<X>(entries: Seq<(Seq<char>, X)>) -> bool {
    forall|i: int, j: int|
        0 <= i < j < entries.len() ==> text::precedes(
            (#[trigger] entries[i]).0,
            (#[trigger] entries[j]).0,
        )
}

/// Whether `key` is the key of one of `entries`.
pub open spec fn has_key<X>(entries: Seq<(Seq<char>, X)>, key: Seq<char>) -> bool {
    exists|i: int| 0 <= i < entries.len() && (#[trigger] entries[i]).0 == key
}

/// The place of `key` among `entries`.
pub open spec fn place_of<X>(entries: Seq<(Seq<char>, X)>, key: Seq<char>) -> int {
    choose|i: int| 0 <= i < entries.len() && (#[trigger] entries[i]).0 == key
}

/// The map that `entries` make.
pub open spec fn map_of<X>(entries: Seq<(Seq<char>, X)>) -> Map<Seq<char>, X> {
    Map::new(
        |key: Seq<char>| has_key(entries, key),
        |key: Seq<char>| entries[place_of(entries, key)].1,
    )
}

/// A key stands at one place only.
pub proof fn lemma_map_of<X>(entries: Seq<(Seq<char>, X)>, i: int)
    requires
        ascending(entries),
        0 <= i < entries.len(),
    ensures
        map_of(entries).contains_key(entries[i].0),
        map_of(entries)[entries[i].0] == entries[i].1,
{
    let key = entries[i].0;
    assert(has_key(entries, key));
    let j = place_of(entries, key);
    lemma_precedes_irreflexive(key);
    if i < j {
        assert(text::precedes(entries[i].0, entries[j].0));
    } else if j < i {
        assert(text::precedes(entries[j].0, entries[i].0));
    }
}

/// Entries in order are determined by the map that they make.
pub proof fn law_order_is_canonical<X>(a: Seq<(Seq<char>, X)>, b: Seq<(Seq<char>, X)>)
    requires
        ascending(a),
        ascending(b),
        map_of(a) == map_of(b),
    ensures
        a == b,
    decreases a.len(),
{
    if a.len() == 0 {
        if b.len() > 0 {
            lemma_map_of(b, 0);
            assert(!map_of(a).contains_key(b[0].0));
        }
        assert(a =~= b);
    } else {
        lemma_map_of(a, a.len() - 1);
        let key = a.last().0;
        assert(has_key(b, key));
        let j = place_of(b, key);
        if j < b.len() - 1 {
            lemma_map_of(b, b.len() - 1);
            assert(text::precedes(key, b.last().0));
            assert(has_key(a, b.last().0));
            let i = place_of(a, b.last().0);
            lemma_precedes_irreflexive(key);
            if i < a.len() - 1 {
                assert(text::precedes(a[i].0, key));
                lemma_precedes_transitive(key, b.last().0, key);
            }
        }
        lemma_map_of(b, j);
        assert(a.last() == b.last());
        let p = a.drop_last();
        let q = b.drop_last();
        assert forall|k: Seq<char>| map_of(p).contains_key(k) == map_of(q).contains_key(k) by {
            lemma_without_last(a, k);
            lemma_without_last(b, k);
        }
        assert forall|k: Seq<char>| map_of(p).contains_key(k) implies map_of(p)[k] == map_of(q)[k]
            by {
            lemma_without_last(a, k);
            lemma_without_last(b, k);
        }
        assert(map_of(p) =~= map_of(q));
        law_order_is_canonical(p, q);
        assert(a =~= p.push(a.last()));
        assert(b =~= q.push(b.last()));
    }
}

/// The entries of a map, in the order of their keys.
pub open spec fn in_order<X>(map: Map<Seq<char>, X>) -> Seq<(Seq<char>, X)> {
    choose|entries: Seq<(Seq<char>, X)>| ascending(entries) && #[trigger] map_of(entries) == map
}

/// Entries that are in order are those of the map that they make.
pub proof fn lemma_in_order<X>(entries: Seq<(Seq<char>, X)>)
    requires
        ascending(entries),
    ensures
        in_order(map_of(entries)) == entries,
{
    law_order_is_canonical(in_order(map_of(entries)), entries);
}

/// Whether a map is made by entries in order, as each finite map is.
pub open spec fn orderable<X>(map: Map<Seq<char>, X>) -> bool {
    ascending(in_order(map)) && map_of(in_order(map)) == map
}

/// The keys of a map are those of its entries.
pub proof fn lemma_entry_keys<X>(map: Map<Seq<char>, X>, key: Seq<char>)
    requires
        orderable(map),
    ensures
        has_key(in_order(map), key) == map.contains_key(key),
{
    assert(map_of(in_order(map)).contains_key(key) == map.contains_key(key));
}

/// The empty map is made by no entries.
pub proof fn lemma_empty_orderable<X>()
    ensures
        orderable(Map::<Seq<char>, X>::empty()),
{
    let none = Seq::<(Seq<char>, X)>::empty();
    assert(map_of(none) =~= Map::empty());
    lemma_in_order(none);
}

/// A map with one more entry is still made by entries in order.
pub proof fn lemma_insert_orderable<X>(map: Map<Seq<char>, X>, key: Seq<char>, value: X)
    requires
        orderable(map),
    ensures
        orderable(map.insert(key, value)),
{
    let entries = in_order(map);
    if has_key(entries, key) {
        let i = place_of(entries, key);
        lemma_replaced(entries, i, (key, value));
        lemma_in_order(entries.update(i, (key, value)));
    } else {
        let i = lemma_position(entries, key, 0);
        lemma_inserted(entries, i, (key, value));
        lemma_in_order(entries.insert(i, (key, value)));
    }
}

proof fn lemma_position<X>(entries: Seq<(Seq<char>, X)>, key: Seq<char>, from: int) -> (i: int)
    requires
        ascending(entries),
        !has_key(entries, key),
        0 <= from <= entries.len(),
        forall|j: int| 0 <= j < from ==> text::precedes((#[trigger] entries[j]).0, key),
    ensures
        from <= i <= entries.len(),
        forall|j: int| 0 <= j < i ==> text::precedes((#[trigger] entries[j]).0, key),
        forall|j: int|
            i <= j < entries.len() ==> text::precedes(key, (#[trigger] entries[j]).0),
    decreases entries.len() - from,
{
    if from == entries.len() {
        from
    } else {
        assert(entries[from].0 != key);
        lemma_precedes_total(key, entries[from].0);
        if text::precedes(key, entries[from].0) {
            assert forall|j: int| from <= j < entries.len() implies text::precedes(
                key,
                (#[trigger] entries[j]).0,
            ) by {
                if from < j {
                    lemma_precedes_transitive(key, entries[from].0, entries[j].0);
                }
            }
            from
        } else {
            lemma_position(entries, key, from + 1)
        }
    }
}

/// Entries with the keys of others, and values that depend on the key.
pub proof fn lemma_same_keys<X, Y>(
    entries: Seq<(Seq<char>, X)>,
    others: Seq<(Seq<char>, Y)>,
    value: spec_fn(Seq<char>) -> Y,
)
    requires
        ascending(entries),
        others.len() == entries.len(),
        forall|i: int|
            0 <= i < entries.len() ==> (#[trigger] others[i]) == (
                entries[i].0,
                value(entries[i].0),
            ),
    ensures
        ascending(others),
        map_of(others) == Map::new(
            |key: Seq<char>| map_of(entries).contains_key(key),
            |key: Seq<char>| value(key),
        ),
{
    assert(ascending(others));
    let target = Map::new(
        |key: Seq<char>| map_of(entries).contains_key(key),
        |key: Seq<char>| value(key),
    );
    assert forall|k: Seq<char>| map_of(others).contains_key(k) == target.contains_key(k) by {
        if has_key(others, k) {
            let i = place_of(others, k);
            assert(entries[i].0 == k);
        }
        if has_key(entries, k) {
            let i = place_of(entries, k);
            assert(others[i].0 == k);
        }
    }
    assert forall|k: Seq<char>| map_of(others).contains_key(k) implies map_of(others)[k]
        == target[k] by {
        let i = place_of(others, k);
        assert(others[i] == (entries[i].0, value(entries[i].0)));
    }
    assert(map_of(others) =~= target);
}

proof fn lemma_without_last<X>(entries: Seq<(Seq<char>, X)>, key: Seq<char>)
    requires
        ascending(entries),
        entries.len() > 0,
    ensures
        map_of(entries.drop_last()).contains_key(key) <==> map_of(entries).contains_key(key) && key
            != entries.last().0,
        map_of(entries.drop_last()).contains_key(key) ==> map_of(entries.drop_last())[key]
            == map_of(entries)[key],
{
    let init = entries.drop_last();
    lemma_precedes_irreflexive(key);
    if has_key(init, key) {
        let i = place_of(init, key);
        assert(entries[i] == init[i]);
        lemma_map_of(init, i);
        lemma_map_of(entries, i);
        assert(text::precedes(entries[i].0, entries.last().0));
    }
    if has_key(entries, key) && key != entries.last().0 {
        let i = place_of(entries, key);
        assert(init[i] == entries[i]);
        assert(has_key(init, key));
    }
}

/// The model of entries.
pub open spec fn entries_view<V: DeepView>(entries: Seq<(String, V)>) -> Seq<(Seq<char>, V::V)> {
    entries.map_values(|e: (String, V)| (e.0@, e.1.deep_view()))
}

/// A map from strings to values.
#[derive(Debug)]
pub struct TextMap<V> {
    items: Vec<(String, V)>,
}

impl<V: DeepView> TextMap<V> {
    /// The entries, in the order of their keys.
    pub closed spec fn entries(&self) -> Seq<(Seq<char>, V::V)> {
        entries_view(self.items@)
    }

    /// Whether the entries are in order.
    pub open spec fn wf(&self) -> bool {
        ascending(self.entries())
    }

    /// The map.
    pub open spec fn map(&self) -> Map<Seq<char>, V::V> {
        map_of(self.entries())
    }

    /// The empty map.
    pub fn new() -> (res: Self)
        ensures
            res.wf(),
            res.entries() == Seq::<(Seq<char>, V::V)>::empty(),
            res.map() == Map::<Seq<char>, V::V>::empty(),
    {
        let res = TextMap { items: Vec::new() };
        assert(res.entries() =~= Seq::<(Seq<char>, V::V)>::empty());
        assert(res.map() =~= Map::<Seq<char>, V::V>::empty());
        res
    }

    /// The map of entries that are in order already.
    pub fn from_ascending(items: Vec<(String, V)>) -> (res: Self)
        requires
            ascending(entries_view(items@)),
        ensures
            res.wf(),
            res.entries() == entries_view(items@),
    {
        TextMap { items }
    }

    /// How many entries there are.
    pub fn len(&self) -> (res: usize)
        ensures
            res == self.entries().len(),
    {
        self.items.len()
    }

    /// The key of the entry at `i`, in order.
    pub fn key_at(&self, i: usize) -> (res: &String)
        requires
            i < self.entries().len(),
        ensures
            res@ == self.entries()[i as int].0,
    {
        &self.items[i].0
    }

    /// The value of the entry at `i`, in order.
    pub fn value_at(&self, i: usize) -> (res: &V)
        requires
            i < self.entries().len(),
        ensures
            res.deep_view() == self.entries()[i as int].1,
    {
        &self.items[i].1
    }

    /// The entries as a vector.
    pub fn items(&self) -> (res: &Vec<(String, V)>)
        ensures
            entries_view(res@) == self.entries(),
    {
        &self.items
    }

    /// The place of the first entry whose key does not come before `key`.
    fn place(&self, key: &str) -> (res: usize)
        requires
            self.wf(),
        ensures
            res <= self.items@.len(),
            forall|j: int|
                0 <= j < res ==> text::precedes((#[trigger] self.entries()[j]).0, key@),
            forall|j: int|
                res <= j < self.items@.len() ==> !text::precedes(
                    (#[trigger] self.entries()[j]).0,
                    key@,
                ),
    {
        let mut i: usize = 0;
        while i < self.items.len() && text::is_before(self.items[i].0.as_str(), key)
            invariant
                i <= self.items@.len(),
                forall|j: int|
                    0 <= j < i ==> text::precedes((#[trigger] self.entries()[j]).0, key@),
            decreases self.items@.len() - i,
        {
            i += 1;
        }
        proof {
            assert forall|j: int| i <= j < self.items@.len() implies !text::precedes(
                (#[trigger] self.entries()[j]).0,
                key@,
            ) by {
                if i < j && text::precedes(self.entries()[j].0, key@) {
                    lemma_precedes_transitive(self.entries()[i as int].0, self.entries()[j].0, key@);
                }
            }
        }
        i
    }

    /// Whether there is an entry for `key`.
    pub fn contains_key(&self, key: &str) -> (res: bool)
        requires
            self.wf(),
        ensures
            res == self.map().contains_key(key@),
    {
        match self.get(key) {
            Some(_) => true,
            None => false,
        }
    }

    /// The value for `key`.
    pub fn get(&self, key: &str) -> (res: Option<&V>)
        requires
            self.wf(),
        ensures
            match res {
                Some(value) => self.map().contains_key(key@) && self.map()[key@]
                    == value.deep_view(),
                None => !self.map().contains_key(key@),
            },
    {
        let i = self.place(key);
        if i < self.items.len() && text::same_text(self.items[i].0.as_str(), key) {
            proof {
                lemma_map_of(self.entries(), i as int);
            }
            return Some(&self.items[i].1);
        }
        proof {
            lemma_precedes_irreflexive(key@);
            if has_key(self.entries(), key@) {
                let j = place_of(self.entries(), key@);
                assert(j >= i);
                if j > i {
                    assert(text::precedes(self.entries()[i as int].0, self.entries()[j].0));
                }
            }
        }
        None
    }

    /// Sets the value for `key`.
    pub fn insert(&mut self, key: String, value: V)
        requires
            old(self).wf(),
        ensures
            final(self).wf(),
            final(self).map() == old(self).map().insert(key@, value.deep_view()),
    {
        let i = self.place(key.as_str());
        let ghost before = self.entries();
        let ghost entry = (key@, value.deep_view());
        if i < self.items.len() && text::same_text(self.items[i].0.as_str(), key.as_str()) {
            self.items.set(i, (key, value));
            assert(self.entries() =~= before.update(i as int, entry));
            proof {
                lemma_replaced(before, i as int, entry);
            }
        } else {
            proof {
                assert forall|j: int| i <= j < before.len() implies text::precedes(
                    key@,
                    (#[trigger] before[j]).0,
                ) by {
                    lemma_precedes_total(key@, before[j].0);
                    if i < j {
                        assert(text::precedes(before[i as int].0, before[j].0));
                    }
                }
            }
            self.items.insert(i, (key, value));
            assert(self.entries() =~= before.insert(i as int, entry));
            proof {
                lemma_inserted(before, i as int, entry);
            }
        }
    }
}

proof fn lemma_replaced<X>(entries: Seq<(Seq<char>, X)>, i: int, entry: (Seq<char>, X))
    requires
        ascending(entries),
        0 <= i < entries.len(),
        entries[i].0 == entry.0,
    ensures
        ascending(entries.update(i, entry)),
        map_of(entries.update(i, entry)) == map_of(entries).insert(entry.0, entry.1),
{
    let after = entries.update(i, entry);
    assert(ascending(after));
    let m = map_of(after);
    let n = map_of(entries).insert(entry.0, entry.1);
    assert forall|k: Seq<char>| m.contains_key(k) == n.contains_key(k) by {
        if has_key(after, k) {
            let j = place_of(after, k);
            assert(entries[j].0 == k);
        }
        if has_key(entries, k) {
            let j = place_of(entries, k);
            assert(after[j].0 == k);
        }
        assert(after[i].0 == entry.0);
    }
    assert forall|k: Seq<char>| m.contains_key(k) implies m[k] == n[k] by {
        let j = place_of(after, k);
        lemma_map_of(after, j);
        lemma_map_of(entries, j);
        lemma_map_of(after, i);
    }
    assert(m =~= n);
}

proof fn lemma_inserted<X>(entries: Seq<(Seq<char>, X)>, i: int, entry: (Seq<char>, X))
    requires
        ascending(entries),
        0 <= i <= entries.len(),
        forall|j: int| 0 <= j < i ==> text::precedes((#[trigger] entries[j]).0, entry.0),
        forall|j: int|
            i <= j < entries.len() ==> text::precedes(entry.0, (#[trigger] entries[j]).0),
    ensures
        ascending(entries.insert(i, entry)),
        map_of(entries.insert(i, entry)) == map_of(entries).insert(entry.0, entry.1),
{
    let after = entries.insert(i, entry);
    assert forall|a: int, b: int| 0 <= a < b < after.len() implies text::precedes(
        (#[trigger] after[a]).0,
        (#[trigger] after[b]).0,
    ) by {
        let p = if a < i {
            a
        } else {
            a - 1
        };
        let q = if b < i {
            b
        } else {
            b - 1
        };
        if a == i {
            assert(after[b] == entries[q]);
        } else if b == i {
            assert(after[a] == entries[p]);
        } else {
            assert(after[a] == entries[p] && after[b] == entries[q]);
        }
    }
    let m = map_of(after);
    let n = map_of(entries).insert(entry.0, entry.1);
    assert(after[i] == entry);
    lemma_map_of(after, i);
    assert forall|k: Seq<char>| m.contains_key(k) == n.contains_key(k) by {
        if has_key(after, k) {
            let j = place_of(after, k);
            if j != i {
                let p = if j < i {
                    j
                } else {
                    j - 1
                };
                assert(entries[p] == after[j]);
                assert(has_key(entries, k));
            }
        }
        if has_key(entries, k) {
            let p = place_of(entries, k);
            let j = if p < i {
                p
            } else {
                p + 1
            };
            assert(after[j] == entries[p]);
        }
    }
    assert forall|k: Seq<char>| m.contains_key(k) implies m[k] == n[k] by {
        let j = place_of(after, k);
        lemma_map_of(after, j);
        if j != i {
            let p = if j < i {
                j
            } else {
                j - 1
            };
            assert(entries[p] == after[j]);
            lemma_map_of(entries, p);
            lemma_precedes_irreflexive(k);
        }
    }
    assert(m =~= n);
}

/// Entries make the map that has exactly their keys, each with its value; a map
/// by its entries in order has each key once, in code-point order.
pub proof fn law_entries_make_the_map<X>(entries: Seq<(Seq<char>, X)>, key: Seq<char>, i: int)
    requires
        ascending(entries),
    ensures
        map_of(entries).contains_key(key) <==> exists|j: int|
            0 <= j < entries.len() && (#[trigger] entries[j]).0 == key,
        0 <= i < entries.len() ==> map_of(entries)[entries[i].0] == entries[i].1,
        in_order(map_of(entries)) == entries,
        0 <= i < entries.len() - 1 ==> text::precedes(entries[i].0, entries[i + 1].0),
{
    lemma_in_order(entries);
    if 0 <= i < entries.len() {
        lemma_map_of(entries, i);
    }
}

} // verus!
