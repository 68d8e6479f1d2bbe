//! A small association list with distinct keys.

use vstd::prelude::*;

verus! {

/// A value whose identity can be tested.
pub trait Ident: Sized {
    /// Whether `self` and `other` are the same value.
    fn same(&self, other: &Self) -> (r: bool)
        ensures
            r == (*self == *other),
    ;
}

impl<A: Ident, B: Ident> Ident for (A, B) {
    fn same(&self, other: &Self) -> (r: bool) {
        self.0.same(&other.0) && self.1.same(&other.1)
    }
}

/// Whether some entry has the key `k`.
pub open spec fn has_key<K, V>(entries: Seq<(K, V)>, k: K) -> bool {
    exists|i: int| 0 <= i < entries.len() && (#[trigger] entries[i]).0 == k
}

/// The position of the entry with the key `k`, where there is one.
pub open spec fn key_index<K, V>(entries: Seq<(K, V)>, k: K) -> int {
    choose|i: int| 0 <= i < entries.len() && (#[trigger] entries[i]).0 == k
}

/// Whether no key occurs twice.
pub open spec fn keys_distinct<K, V>(entries: Seq<(K, V)>) -> bool {
    forall|i: int, j: int|
        0 <= i < j < entries.len() ==> (#[trigger] entries[i]).0 != (#[trigger] entries[j]).0
}

/// The entries after `v` was stored under `k`: in its old place if `k` was there,
/// at the end otherwise.
pub open spec fn entries_insert<K, V>(entries: Seq<(K, V)>, k: K, v: V) -> Seq<(K, V)> {
    if has_key(entries, k) {
        entries.update(key_index(entries, k), (k, v))
    } else {
        entries.push((k, v))
    }
}

/// The entries without the one with the key `k`.
pub open spec fn entries_remove<K, V>(entries: Seq<(K, V)>, k: K) -> Seq<(K, V)> {
    if has_key(entries, k) {
        entries.remove(key_index(entries, k))
    } else {
        entries
    }
}

/// The mathematical map that a list of entries stands for.
pub open spec fn entries_map<K, V>(entries: Seq<(K, V)>) -> Map<K, V> {
    Map::new(|k: K| has_key(entries, k), |k: K| entries[key_index(entries, k)].1)
}

/// An association list: each key occurs once, and entries stand in the order in which
/// their keys were first stored.
#[derive(Debug)]
pub struct Assoc<K, V> {
    /// The entries of the list.
    pub entries: Vec<(K, V)>,
}

impl<K, V> View for Assoc<K, V> {
    type V = Map<K, V>;

    open spec fn view(&self) -> Map<K, V> {
        entries_map(self.entries@)
    }
}

impl<K, V> Assoc<K, V> {
    /// Whether no key occurs twice.
    pub open spec fn wf(&self) -> bool {
        keys_distinct(self.entries@)
    }
}

/// The key at position `i` is found there, where no key occurs twice.
pub proof fn lemma_key_index<K, V>(entries: Seq<(K, V)>, i: int)
    requires
        keys_distinct(entries),
        0 <= i < entries.len(),
    ensures
        has_key(entries, entries[i].0),
        key_index(entries, entries[i].0) == i,
{
    let k = entries[i].0;
    assert(has_key(entries, k));
    let j = key_index(entries, k);
    assert(0 <= j < entries.len() && entries[j].0 == k);
    if j < i {
        assert(entries[j].0 != entries[i].0);
    } else if i < j {
        assert(entries[i].0 != entries[j].0);
    }
}

/// Storing a value keeps the keys distinct and stores it in the map.
pub proof fn lemma_entries_insert<K, V>(entries: Seq<(K, V)>, k: K, v: V)
    requires
        keys_distinct(entries),
    ensures
        keys_distinct(entries_insert(entries, k, v)),
        entries_map(entries_insert(entries, k, v)) =~= entries_map(entries).insert(k, v),
{
    let after = entries_insert(entries, k, v);
    assert(keys_distinct(after)) by {
        if has_key(entries, k) {
            assert forall|i: int, j: int| 0 <= i < j < after.len() implies (#[trigger] after[i]).0
                != (#[trigger] after[j]).0 by {
                assert(after[i].0 == entries[i].0);
                assert(after[j].0 == entries[j].0);
            }
        } else {
            assert forall|i: int, j: int| 0 <= i < j < after.len() implies (#[trigger] after[i]).0
                != (#[trigger] after[j]).0 by {
                assert(after[i] == entries[i]);
                if j < entries.len() {
                    assert(after[j] == entries[j]);
                }
            }
        }
    }
    let at = if has_key(entries, k) {
        key_index(entries, k)
    } else {
        entries.len() as int
    };
    assert(after[at] == (k, v));
    lemma_key_index(after, at);
    assert forall|q: K| has_key(after, q) <==> has_key(entries, q) || q == k by {
        if has_key(entries, q) {
            let i = key_index(entries, q);
            assert(after[i].0 == q);
        }
        if has_key(after, q) && q != k {
            let i = key_index(after, q);
            assert(entries[i].0 == q);
        }
    }
    assert forall|q: K| has_key(entries, q) && q != k implies after[key_index(after, q)]
        == entries[key_index(entries, q)] by {
        let i = key_index(entries, q);
        assert(after[i] == entries[i]);
        lemma_key_index(after, i);
    }
}

/// What is stored under a key is found there, and what is stored under others stays.
pub proof fn lemma_insert_get<K, V>(entries: Seq<(K, V)>, k: K, v: V, q: K)
    requires
        keys_distinct(entries),
    ensures
        has_key(entries_insert(entries, k, v), q) <==> has_key(entries, q) || q == k,
        q == k ==> entries_insert(entries, k, v)[key_index(entries_insert(entries, k, v), q)].1
            == v,
        q != k && has_key(entries, q) ==> entries_insert(entries, k, v)[key_index(
            entries_insert(entries, k, v),
            q,
        )].1 == entries[key_index(entries, q)].1,
{
    let after = entries_insert(entries, k, v);
    lemma_entries_insert(entries, k, v);
    assert(entries_map(after) == entries_map(entries).insert(k, v));
    assert(entries_map(after).dom().contains(q) == has_key(after, q));
    assert(entries_map(entries).dom().contains(q) == has_key(entries, q));
    if has_key(after, q) {
        assert(entries_map(after)[q] == after[key_index(after, q)].1);
    }
    if has_key(entries, q) {
        assert(entries_map(entries)[q] == entries[key_index(entries, q)].1);
    }
}

/// Removing a key keeps the others.
pub proof fn lemma_entries_remove<K, V>(entries: Seq<(K, V)>, k: K)
    requires
        keys_distinct(entries),
    ensures
        keys_distinct(entries_remove(entries, k)),
        entries_map(entries_remove(entries, k)) =~= entries_map(entries).remove(k),
{
    let after = entries_remove(entries, k);
    if has_key(entries, k) {
        let at = key_index(entries, k);
        assert forall|i: int, j: int| 0 <= i < j < after.len() implies (#[trigger] after[i]).0 != (
        #[trigger] after[j]).0 by {
            let i0 = if i < at {
                i
            } else {
                i + 1
            };
            let j0 = if j < at {
                j
            } else {
                j + 1
            };
            assert(after[i] == entries[i0]);
            assert(after[j] == entries[j0]);
        }
        assert(!has_key(after, k)) by {
            if has_key(after, k) {
                let i = key_index(after, k);
                let i0 = if i < at {
                    i
                } else {
                    i + 1
                };
                assert(after[i] == entries[i0]);
                lemma_key_index(entries, i0);
            }
        }
        assert forall|q: K| q != k && has_key(entries, q) implies has_key(after, q)
            && after[key_index(after, q)] == entries[key_index(entries, q)] by {
            let i = key_index(entries, q);
            assert(i != at);
            let i1 = if i < at {
                i
            } else {
                i - 1
            };
            assert(after[i1] == entries[i]);
            lemma_key_index(after, i1);
        }
        assert forall|q: K| has_key(after, q) implies has_key(entries, q) by {
            let i = key_index(after, q);
            let i0 = if i < at {
                i
            } else {
                i + 1
            };
            assert(after[i] == entries[i0]);
        }
    }
}

impl<K: Ident, V> Assoc<K, V> {
    /// The empty list.
    pub fn new() -> (r: Self)
        ensures
            r.wf(),
            r.entries@ == Seq::<(K, V)>::empty(),
            r@ =~= Map::<K, V>::empty(),
    {
        Assoc { entries: Vec::new() }
    }

    /// The position of the entry with the key `k`.
    pub fn position(&self, k: &K) -> (r: Option<usize>)
        requires
            self.wf(),
        ensures
            r is Some <==> has_key(self.entries@, *k),
            r matches Some(i) ==> i < self.entries@.len() && i == key_index(self.entries@, *k)
                && self.entries@[i as int].0 == *k,
    {
        let n: usize = self.entries.len();
        let mut i: usize = 0;
        while i < n
            invariant
                n == self.entries@.len(),
                i <= n,
                self.wf(),
                forall|j: int| 0 <= j < i ==> (#[trigger] self.entries@[j]).0 != *k,
            decreases n - i,
        {
            if self.entries[i].0.same(k) {
                proof {
                    lemma_key_index(self.entries@, i as int);
                }
                return Some(i);
            }
            i = i + 1;
        }
        None
    }

    /// Whether some entry has the key `k`.
    pub fn contains_key(&self, k: &K) -> (r: bool)
        requires
            self.wf(),
        ensures
            r == has_key(self.entries@, *k),
            r == self@.dom().contains(*k),
    {
        self.position(k).is_some()
    }

    /// The value that is stored under `k`.
    pub fn get(&self, k: &K) -> (r: Option<&V>)
        requires
            self.wf(),
        ensures
            r is Some <==> has_key(self.entries@, *k),
            r matches Some(v) ==> *v == self@[*k] && *v == self.entries@[key_index(
                self.entries@,
                *k,
            )].1,
    {
        match self.position(k) {
            Some(i) => Some(&self.entries[i].1),
            None => None,
        }
    }

    /// Stores `v` under `k`, in place of the value that was stored there.
    pub fn insert(&mut self, k: K, v: V)
        requires
            old(self).wf(),
        ensures
            final(self).wf(),
            final(self).entries@ == entries_insert(old(self).entries@, k, v),
            final(self)@ =~= old(self)@.insert(k, v),
    {
        proof {
            lemma_entries_insert(self.entries@, k, v);
        }
        match self.position(&k) {
            Some(i) => {
                self.entries[i] = (k, v);
            },
            None => {
                self.entries.push((k, v));
            },
        }
    }

    /// Removes the entry with the key `k` and returns its value.
    pub fn remove(&mut self, k: &K) -> (r: Option<V>)
        requires
            old(self).wf(),
        ensures
            final(self).wf(),
            final(self).entries@ == entries_remove(old(self).entries@, *k),
            final(self)@ =~= old(self)@.remove(*k),
            r is Some <==> has_key(old(self).entries@, *k),
            r is None ==> *final(self) == *old(self),
            r matches Some(v) ==> v == old(self)@[*k] && v == old(self).entries@[key_index(
                old(self).entries@,
                *k,
            )].1,
    {
        proof {
            lemma_entries_remove(self.entries@, *k);
        }
        match self.position(k) {
            Some(i) => {
                let (_, v) = self.entries.remove(i);
                Some(v)
            },
            None => None,
        }
    }
}

/// The position of the first occurrence of `x` in `items`.
pub fn position_of<T: Ident>(items: &Vec<T>, x: &T) -> (r: Option<usize>)
    ensures
        r is Some <==> items@.contains(*x),
        r matches Some(i) ==> i < items@.len() && items@[i as int] == *x && (forall|j: int|
            0 <= j < i ==> items@[j] != *x),
{
    let n: usize = items.len();
    let mut i: usize = 0;
    while i < n
        invariant
            n == items@.len(),
            i <= n,
            forall|j: int| 0 <= j < i ==> items@[j] != *x,
        decreases n - i,
    {
        if items[i].same(x) {
            return Some(i);
        }
        i = i + 1;
    }
    None
}

/// Whether `x` occurs in `items`.
pub fn contains<T: Ident>(items: &Vec<T>, x: &T) -> (r: bool)
    ensures
        r == items@.contains(*x),
{
    position_of(items, x).is_some()
}

/// The items with `x` among them: as they were if it is there, and behind them otherwise.
pub open spec fn with_item<T>(items: Seq<T>, x: T) -> Seq<T> {
    if items.contains(x) {
        items
    } else {
        items.push(x)
    }
}

/// The position of the first occurrence of `x`, where there is one.
pub open spec fn first_index<T>(items: Seq<T>, x: T) -> int {
    choose|i: int|
        #![trigger items[i]]
        0 <= i < items.len() && items[i] == x && (forall|j: int|
            0 <= j < i ==> #[trigger] items[j] != x)
}

/// The items without the first occurrence of `x`.
pub open spec fn without_item<T>(items: Seq<T>, x: T) -> Seq<T> {
    if items.contains(x) {
        items.remove(first_index(items, x))
    } else {
        items
    }
}

/// The first occurrence is the one before which there is none.
pub proof fn lemma_first_index<T>(items: Seq<T>, x: T, i: int)
    requires
        0 <= i < items.len(),
        items[i] == x,
        forall|j: int| 0 <= j < i ==> #[trigger] items[j] != x,
    ensures
        first_index(items, x) == i,
{
    let k = first_index(items, x);
    assert(0 <= k < items.len() && items[k] == x && (forall|j: int|
        0 <= j < k ==> #[trigger] items[j] != x));
    if k < i {
        assert(items[k] != x);
    } else if i < k {
        assert(items[i] != x);
    }
}

/// Adding an item keeps a list free of duplicates, and adds it.
pub proof fn lemma_with_item<T>(items: Seq<T>, x: T)
    ensures
        items.no_duplicates() ==> with_item(items, x).no_duplicates(),
        forall|y: T| #[trigger]
            with_item(items, x).contains(y) <==> items.contains(y) || y == x,
{
    let after = with_item(items, x);
    assert forall|y: T| #[trigger] after.contains(y) <==> items.contains(y) || y == x by {
        if items.contains(y) {
            let i = items.index_of(y);
            assert(after[i] == y);
        }
        if y == x && !items.contains(x) {
            assert(after[items.len() as int] == x);
        }
        if after.contains(y) && y != x {
            let i = after.index_of(y);
            assert(items[i] == y);
        }
    }
}

/// In a list free of duplicates, removing an item keeps it so, and removes the item alone.
pub proof fn lemma_without_item<T>(items: Seq<T>, x: T)
    requires
        items.no_duplicates(),
    ensures
        without_item(items, x).no_duplicates(),
        forall|y: T| #[trigger]
            without_item(items, x).contains(y) <==> items.contains(y) && y != x,
{
    let after = without_item(items, x);
    if items.contains(x) {
        let at = items.index_of(x);
        lemma_first_index(items, x, at);
        assert forall|y: T| #[trigger] after.contains(y) <==> items.contains(y) && y != x by {
            if items.contains(y) && y != x {
                let i = items.index_of(y);
                let i1 = if i < at {
                    i
                } else {
                    i - 1
                };
                assert(after[i1] == y);
            }
            if after.contains(y) {
                let i = after.index_of(y);
                let i0 = if i < at {
                    i
                } else {
                    i + 1
                };
                assert(items[i0] == y);
            }
        }
    }
}

/// Adds `x` to a list that does not hold it, and says whether it was new.
pub fn add_item<T: Ident>(items: &mut Vec<T>, x: T) -> (r: bool)
    ensures
        final(items)@ == with_item(old(items)@, x),
        r == !old(items)@.contains(x),
{
    if contains(items, &x) {
        false
    } else {
        items.push(x);
        true
    }
}

/// Removes the first occurrence of `x`, and says whether there was one.
pub fn remove_item<T: Ident>(items: &mut Vec<T>, x: &T) -> (r: bool)
    ensures
        final(items)@ == without_item(old(items)@, *x),
        r == old(items)@.contains(*x),
        final(items)@.len() == old(items)@.len() - (if r {
            1int
        } else {
            0int
        }),
{
    match position_of(items, x) {
        Some(i) => {
            proof {
                lemma_first_index(items@, *x, i as int);
            }
            items.remove(i);
            true
        },
        None => false,
    }
}

/// An element is in a filtered list if it is in the list and passes.
pub proof fn lemma_filtered<T>(list: Seq<T>, f: spec_fn(T) -> bool, x: T)
    ensures
        list.filter(f).contains(x) <==> list.contains(x) && f(x),
    decreases list.len(),
{
    reveal(Seq::filter);
    if list.len() > 0 {
        let front = list.drop_last();
        lemma_filtered(front, f, x);
        assert(list =~= front.push(list.last()));
        let kept = front.filter(f);
        if list.contains(x) {
            let i = list.index_of(x);
            if i < front.len() {
                assert(front[i] == x);
            }
        }
        if front.contains(x) {
            assert(list[front.index_of(x)] == x);
        }
        if f(list.last()) {
            assert(list.filter(f) == kept.push(list.last()));
            if kept.contains(x) {
                assert(kept.push(list.last())[kept.index_of(x)] == x);
            }
            if x == list.last() {
                assert(kept.push(x)[kept.len() as int] == x);
            }
            if kept.push(list.last()).contains(x) {
                let i = kept.push(list.last()).index_of(x);
                if i < kept.len() {
                    assert(kept[i] == x);
                }
            }
        }
        assert(list.last() == list[list.len() - 1]);
    }
}

} // verus!
