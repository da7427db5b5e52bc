//! A small map from player ids to values, kept as a list with distinct ids.

use vstd::prelude::*;

verus! {

/// Entries `(id, value)` with pairwise distinct ids.
pub struct KeyedList<V> {
    entries: Vec<(String, V)>,
}

/// Whether `id` is the id of an entry of `es`.
pub open spec fn has_id<V>(es: Seq<(String, V)>, id: Seq<char>) -> bool {
    exists|i: int| 0 <= i < es.len() && (#[trigger] es[i]).0@ == id
}

impl<V: Copy> View for KeyedList<V> {
    type V = Map<Seq<char>, V>;

    /// The entries as a map from id to value.
    closed spec fn view(&self) -> Map<Seq<char>, V> {
        Map::new(
            |id: Seq<char>| has_id(self.entries@, id),
            |id: Seq<char>|
                self.entries@[choose|i: int|
                    0 <= i < self.entries@.len() && (#[trigger] self.entries@[i]).0@ == id].1,
        )
    }
}

impl<V: Copy> KeyedList<V> {
    /// No two entries share an id.
    pub closed spec fn wf(&self) -> bool {
        forall|i: int, j: int|
            0 <= i < j < self.entries@.len() ==> (#[trigger] self.entries@[i]).0@ != (
            #[trigger] self.entries@[j]).0@
    }

    proof fn lemma_lookup(&self, i: int)
        requires
            self.wf(),
            0 <= i < self.entries@.len(),
        ensures
            self@.contains_key(self.entries@[i].0@),
            self@[self.entries@[i].0@] == self.entries@[i].1,
    {
        let id = self.entries@[i].0@;
        assert(has_id(self.entries@, id));
        let k = choose|k: int| 0 <= k < self.entries@.len() && (#[trigger] self.entries@[k]).0@ == id;
        if k != i {
            assert(self.entries@[k].0@ == self.entries@[i].0@);
        }
    }

    /// An empty list.
    pub fn new() -> (l: Self)
        ensures
            l.wf(),
            l@ == Map::<Seq<char>, V>::empty(),
    {
        let l = KeyedList { entries: Vec::new() };
        assert(l@ =~= Map::<Seq<char>, V>::empty());
        l
    }

    fn find(&self, key: &String) -> (r: Option<usize>)
        requires
            self.wf(),
        ensures
            r matches Some(i) ==> i < self.entries@.len() && self.entries@[i as int].0@ == key@,
            r is None ==> !self@.contains_key(key@),
    {
        let mut i: usize = 0;
        while i < self.entries.len()
            invariant
                i <= self.entries@.len(),
                forall|j: int| 0 <= j < i ==> (#[trigger] self.entries@[j]).0@ != key@,
            decreases self.entries@.len() - i,
        {
            if self.entries[i].0 == *key {
                return Some(i);
            }
            i = i + 1;
        }
        None
    }

    /// The value stored under `key`, if any.
    pub fn get(&self, key: &str) -> (r: Option<V>)
        requires
            self.wf(),
        ensures
            r == (if self@.contains_key(key@) {
                Some(self@[key@])
            } else {
                None::<V>
            }),
    {
        let k = key.to_owned();
        match self.find(&k) {
            Some(i) => {
                proof {
                    self.lemma_lookup(i as int);
                }
                Some(self.entries[i].1)
            },
            None => None,
        }
    }

    /// Stores `value` under `key`, replacing any value it had.
    pub fn insert(&mut self, key: String, value: V)
        requires
            old(self).wf(),
        ensures
            final(self).wf(),
            final(self)@ == old(self)@.insert(key@, value),
    {
        let ghost before = self.entries@;
        let ghost key_view = key@;
        match self.find(&key) {
            Some(i) => {
                self.entries.set(i, (key, value));
                proof {
                    // Every entry but the replaced one stays at its index.
                    assert forall|k: int| 0 <= k < self.entries@.len() && k != i implies (
                    #[trigger] self.entries@[k]) == before[k] by {}
                    assert forall|m: int| 0 <= m < self.entries@.len() && m != i implies (
                    #[trigger] self.entries@[m]).0@ != key_view by {
                        assert(before[m].0@ != before[i as int].0@);
                    }
                    assert(self.entries@[i as int].0@ == key_view);
                    lemma_entries_after_change(before, self.entries@, key_view, Some(value), |k: int| k, |k: int| k);
                    self.lemma_map_after_change(before, old(self)@, key_view, Some(value));
                }
            },
            None => {
                self.entries.push((key, value));
                proof {
                    // Every old entry stays at its index; the new one is last.
                    assert forall|k: int| 0 <= k < before.len() implies (#[trigger] self.entries@[k])
                        == before[k] by {}
                    assert forall|m: int| 0 <= m < self.entries@.len() && m != before.len() implies (
                    #[trigger] self.entries@[m]).0@ != key_view by {
                        assert(!has_id(before, key_view));
                        assert(self.entries@[m] == before[m]);
                    }
                    assert(self.entries@[before.len() as int].0@ == key_view);
                    lemma_entries_after_change(before, self.entries@, key_view, Some(value), |k: int| k, |k: int| k);
                    self.lemma_map_after_change(before, old(self)@, key_view, Some(value));
                }
            },
        }
    }

    /// Removes the entry under `key`, returning its value.
    pub fn remove(&mut self, key: &str) -> (r: Option<V>)
        requires
            old(self).wf(),
        ensures
            final(self).wf(),
            r == (if old(self)@.contains_key(key@) {
                Some(old(self)@[key@])
            } else {
                None::<V>
            }),
            final(self)@ == old(self)@.remove(key@),
    {
        let k = key.to_owned();
        let ghost before = self.entries@;
        match self.find(&k) {
            Some(i) => {
                proof {
                    self.lemma_lookup(i as int);
                }
                let (_, v) = self.entries.remove(i);
                proof {
                    // Entries after the removed one move down by one.
                    let to_before = |k: int| if k < i { k } else { k + 1 };
                    let to_after = |m: int| if m < i { m } else { m - 1 };
                    lemma_entries_after_change(before, self.entries@, key@, None, to_before, to_after);
                    self.lemma_map_after_change(before, old(self)@, key@, None);
                }
                Some(v)
            },
            None => {
                assert(self@ =~= old(self)@.remove(key@));
                None
            },
        }
    }

    /// After a change that touches only the entry with id `key`, the map view
    /// changes at `key` only.
    proof fn lemma_map_after_change(
        &self,
        before: Seq<(String, V)>,
        before_view: Map<Seq<char>, V>,
        key: Seq<char>,
        value: Option<V>,
    )
        requires
            self.wf(),
            forall|i: int, j: int|
                0 <= i < j < before.len() ==> (#[trigger] before[i]).0@ != (#[trigger] before[j]).0@,
            before_view == Map::new(
                |id: Seq<char>| has_id(before, id),
                |id: Seq<char>|
                    before[choose|i: int| 0 <= i < before.len() && (#[trigger] before[i]).0@ == id].1,
            ),
            entries_changed_at(before, self.entries@, key, value),
        ensures
            self@ == (match value {
                Some(v) => before_view.insert(key, v),
                None => before_view.remove(key),
            }),
    {
        let target = match value {
            Some(v) => before_view.insert(key, v),
            None => before_view.remove(key),
        };
        assert forall|id: Seq<char>| #[trigger] self@.contains_key(id) <==> target.contains_key(id) by {
            if id != key {
                if has_id(self.entries@, id) {
                    let k = choose|k: int| 0 <= k < self.entries@.len() && (#[trigger] self.entries@[k]).0@ == id;
                    let j = choose|j: int| 0 <= j < before.len() && before[j] == self.entries@[k];
                    assert(before[j].0@ == id);
                }
                if has_id(before, id) {
                    let j = choose|j: int| 0 <= j < before.len() && (#[trigger] before[j]).0@ == id;
                    let k = choose|k: int| 0 <= k < self.entries@.len() && self.entries@[k] == before[j];
                    assert(self.entries@[k].0@ == id);
                }
            }
        }
        assert forall|id: Seq<char>| #[trigger] self@.contains_key(id) implies self@[id] == target[id] by {
            let i = choose|i: int| 0 <= i < self.entries@.len() && (#[trigger] self.entries@[i]).0@ == id;
            self.lemma_lookup(i);
            if id != key {
                let j = choose|j: int| 0 <= j < before.len() && before[j] == self.entries@[i];
                let k = choose|k: int| 0 <= k < before.len() && (#[trigger] before[k]).0@ == id;
                if k != j {
                    assert(before[k].0@ == before[j].0@);
                }
            } else {
                let v = value->0;
                let m = choose|m: int| 0 <= m < self.entries@.len() && (#[trigger] self.entries@[m]).0@ == key
                    && self.entries@[m].1 == v;
                if m != i {
                    assert(self.entries@[m].0@ == self.entries@[i].0@);
                }
            }
        }
        assert(self@ =~= target);
    }

    /// Every entry once, in no particular order.
    pub fn entries(&self) -> (r: &Vec<(String, V)>)
        requires
            self.wf(),
        ensures
            r@.len() == self@.dom().len(),
            forall|i: int|
                0 <= i < r@.len() ==> self@.contains_key((#[trigger] r@[i]).0@) && self@[r@[i].0@]
                    == r@[i].1,
            forall|i: int, j: int|
                0 <= i < j < r@.len() ==> (#[trigger] r@[i]).0@ != (#[trigger] r@[j]).0@,
            forall|id: Seq<char>|
                #[trigger] self@.contains_key(id) ==> exists|i: int|
                    0 <= i < r@.len() && (#[trigger] r@[i]).0@ == id,
    {
        proof {
            assert forall|i: int| 0 <= i < self.entries@.len() implies self@.contains_key(
                (#[trigger] self.entries@[i]).0@,
            ) && self@[self.entries@[i].0@] == self.entries@[i].1 by {
                self.lemma_lookup(i);
            }
            let f = |i: int| self.entries@[i].0@;
            let idx = Set::new(|i: int| 0 <= i < self.entries@.len());
            vstd::set_lib::lemma_int_range(0, self.entries@.len() as int);
            assert(idx =~= vstd::set_lib::set_int_range(0, self.entries@.len() as int));
            assert forall|id: Seq<char>| #[trigger] idx.map(f).contains(id) <==> self@.dom().contains(id) by {
                if self@.dom().contains(id) {
                    let j = choose|j: int| 0 <= j < self.entries@.len() && (#[trigger] self.entries@[j]).0@ == id;
                    assert(idx.contains(j) && f(j) == id);
                }
            }
            assert(idx.map(f) =~= self@.dom());
            assert forall|a: int, b: int| idx.contains(a) && idx.contains(b) && #[trigger] f(a)
                == #[trigger] f(b) implies a == b by {
                if a < b {
                    assert(self.entries@[a].0@ != self.entries@[b].0@);
                } else if b < a {
                    assert(self.entries@[b].0@ != self.entries@[a].0@);
                }
            }
            vstd::set_lib::lemma_map_size(idx, self@.dom(), f);
        }
        &self.entries
    }
}


/// `after` differs from `before` only at the entry with id `key`: every other
/// entry of either appears in the other, `key` maps to `value` when that is
/// given and is gone otherwise, and ids stay distinct.
pub open spec fn entries_changed_at<V>(
    before: Seq<(String, V)>,
    after: Seq<(String, V)>,
    key: Seq<char>,
    value: Option<V>,
) -> bool {
    &&& forall|i: int, j: int|
        0 <= i < j < after.len() ==> (#[trigger] after[i]).0@ != (#[trigger] after[j]).0@
    &&& forall|k: int|
        0 <= k < after.len() && (#[trigger] after[k]).0@ != key ==> exists|j: int|
            0 <= j < before.len() && before[j] == after[k]
    &&& forall|j: int|
        0 <= j < before.len() && (#[trigger] before[j]).0@ != key ==> exists|k: int|
            0 <= k < after.len() && after[k] == before[j]
    &&& match value {
        Some(v) => exists|k: int| 0 <= k < after.len() && (#[trigger] after[k]).0@ == key && after[k].1 == v,
        None => !has_id(after, key),
    }
}

/// A change that keeps every entry but the one under `key` (moving them by
/// the index maps `to_before` and `to_after`) and leaves `key` under `value`,
/// or removes it, changes the entries at `key` only.
proof fn lemma_entries_after_change<V>(
    before: Seq<(String, V)>,
    after: Seq<(String, V)>,
    key: Seq<char>,
    value: Option<V>,
    to_before: spec_fn(int) -> int,
    to_after: spec_fn(int) -> int,
)
    requires
        forall|i: int, j: int|
            0 <= i < j < before.len() ==> (#[trigger] before[i]).0@ != (#[trigger] before[j]).0@,
        // Entries with other ids come from `before` in the same order.
        forall|k: int|
            0 <= k < after.len() && (#[trigger] after[k]).0@ != key ==> 0 <= to_before(k)
                < before.len() && before[to_before(k)] == after[k],
        forall|k1: int, k2: int|
            0 <= k1 < k2 < after.len() && (#[trigger] after[k1]).0@ != key && (#[trigger] after[k2]).0@
                != key ==> to_before(k1) < to_before(k2),
        forall|j: int|
            0 <= j < before.len() && (#[trigger] before[j]).0@ != key ==> 0 <= to_after(j)
                < after.len() && after[to_after(j)] == before[j],
        match value {
            Some(v) => exists|k: int|
                0 <= k < after.len() && (#[trigger] after[k]).0@ == key && after[k].1 == v && forall|
                    m: int,
                | 0 <= m < after.len() && m != k ==> (#[trigger] after[m]).0@ != key,
            None => !has_id(after, key),
        },
    ensures
        entries_changed_at(before, after, key, value),
{
    assert forall|i: int, j: int| 0 <= i < j < after.len() implies (#[trigger] after[i]).0@ != (
    #[trigger] after[j]).0@ by {
        if after[i].0@ != key && after[j].0@ != key {
            assert(before[to_before(i)].0@ != before[to_before(j)].0@);
        }
    }
    assert forall|k: int| 0 <= k < after.len() && (#[trigger] after[k]).0@ != key implies exists|j: int|
        0 <= j < before.len() && before[j] == after[k] by {
        assert(before[to_before(k)] == after[k]);
    }
    assert forall|j: int| 0 <= j < before.len() && (#[trigger] before[j]).0@ != key implies exists|k: int|
        0 <= k < after.len() && after[k] == before[j] by {
        assert(after[to_after(j)] == before[j]);
    }
}

} // verus!
