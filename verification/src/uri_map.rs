//! A map from addresses of documents to values.
use crate::text::same_text;
use vstd::prelude::*;

verus! {

/// A map whose keys are texts. An editor has few documents open, so the entries stand in a
/// list.
pub struct UriMap<V> {
    entries: Vec<(String, V)>,
}

/// The map that a list of entries makes; a later entry takes the place of an earlier one.
pub open spec fn map_of<V>(entries: Seq<(String, V)>) -> Map<Seq<char>, V>
    decreases entries.len(),
{
    if entries.len() == 0 {
        Map::empty()
    } else {
        map_of(entries.drop_last()).insert(entries.last().0@, entries.last().1)
    }
}

/// Whether no key stands in a list of entries twice.
pub open spec fn distinct<V>(entries: Seq<(String, V)>) -> bool {
    forall|i: int, j: int|
        0 <= i < j < entries.len() ==> (#[trigger] entries[i]).0@ != (#[trigger] entries[j]).0@
}

/// The keys of `map_of` are the keys of the entries, and each has the value of its entry.
pub proof fn lemma_map_of<V>(entries: Seq<(String, V)>)
    requires
        distinct(entries),
    ensures
        map_of(entries).dom().finite(),
        map_of(entries).dom().len() == entries.len(),
        forall|i: int|
            0 <= i < entries.len() ==> map_of(entries).contains_key((#[trigger] entries[i]).0@)
                && map_of(entries)[entries[i].0@] == entries[i].1,
        forall|k: Seq<char>| #[trigger]
            map_of(entries).contains_key(k) ==> exists|i: int|
                0 <= i < entries.len() && (#[trigger] entries[i]).0@ == k,
    decreases entries.len(),
{
    if entries.len() > 0 {
        let front = entries.drop_last();
        let n = entries.len() - 1;
        lemma_map_of(front);
        assert forall|i: int| 0 <= i < entries.len() implies map_of(entries).contains_key(
            (#[trigger] entries[i]).0@,
        ) && map_of(entries)[entries[i].0@] == entries[i].1 by {
            if i < n {
                assert(entries[i] == front[i]);
                assert(entries[i].0@ != entries[n].0@);
            }
        }
        assert forall|k: Seq<char>| #[trigger] map_of(entries).contains_key(k) implies exists|
            i: int,
        |
            0 <= i < entries.len() && (#[trigger] entries[i]).0@ == k by {
            if k == entries[n].0@ {
                assert(entries[n].0@ == k);
            } else {
                assert(map_of(front).contains_key(k));
                let i = choose|i: int| 0 <= i < front.len() && (#[trigger] front[i]).0@ == k;
                assert(entries[i].0@ == k);
            }
        }
        if map_of(front).contains_key(entries[n].0@) {
            let i = choose|i: int|
                0 <= i < front.len() && (#[trigger] front[i]).0@ == entries[n].0@;
            assert(entries[i].0@ == entries[n].0@);
        }
    }
}

impl<V> UriMap<V> {
    /// What the map holds.
    pub closed spec fn view(&self) -> Map<Seq<char>, V> {
        map_of(self.entries@)
    }

    /// The entries, in the order in which they stand.
    pub closed spec fn list(&self) -> Seq<(String, V)> {
        self.entries@
    }

    /// Whether no key stands in the map twice.
    pub closed spec fn wf(&self) -> bool {
        distinct(self.entries@)
    }

    /// What the map holds is what its entries make.
    pub proof fn lemma_view(&self)
        requires
            self.wf(),
        ensures
            self@ == map_of(self.list()),
            distinct(self.list()),
            self@.dom().finite(),
            self@.dom().len() == self.list().len(),
    {
        lemma_map_of(self.entries@);
    }

    /// An empty map.
    pub fn new() -> (r: Self)
        ensures
            r.wf(),
            r@ == Map::<Seq<char>, V>::empty(),
    {
        UriMap { entries: Vec::new() }
    }

    /// How many entries the map has.
    pub fn len(&self) -> (r: usize)
        requires
            self.wf(),
        ensures
            r == self@.dom().len(),
            r == self.list().len(),
    {
        proof {
            lemma_map_of(self.entries@);
        }
        self.entries.len()
    }

    /// The value of the entry at a place in the list.
    pub fn value_at(&self, i: usize) -> (r: &V)
        requires
            i < self.list().len(),
        ensures
            *r == self.list()[i as int].1,
    {
        &self.entries[i].1
    }

    /// Place of a key in the list, or the length of the list.
    fn find(&self, key: &str) -> (r: usize)
        ensures
            r <= self.entries@.len(),
            forall|i: int| 0 <= i < r ==> (#[trigger] self.entries@[i]).0@ != key@,
            r < self.entries@.len() ==> self.entries@[r as int].0@ == key@,
    {
        let mut i: usize = 0;
        while i < self.entries.len()
            invariant
                i <= self.entries@.len(),
                forall|j: int| 0 <= j < i ==> (#[trigger] self.entries@[j]).0@ != key@,
            decreases self.entries@.len() - i,
        {
            if same_text(self.entries[i].0.as_str(), key) {
                return i;
            }
            i = i + 1;
        }
        i
    }

    /// The value of a key.
    pub fn get(&self, key: &str) -> (r: Option<&V>)
        requires
            self.wf(),
        ensures
            match r {
                Some(v) => self@.contains_key(key@) && *v == self@[key@],
                None => !self@.contains_key(key@),
            },
    {
        let i = self.find(key);
        proof {
            lemma_map_of(self.entries@);
        }
        if i < self.entries.len() {
            Some(&self.entries[i].1)
        } else {
            None
        }
    }

    /// Gives a key a value.
    pub fn insert(&mut self, key: String, value: V)
        requires
            old(self).wf(),
        ensures
            final(self).wf(),
            final(self)@ == old(self)@.insert(key@, value),
    {
        let i = self.find(key.as_str());
        let ghost before = self.entries@;
        proof {
            lemma_map_of(before);
        }
        if i < self.entries.len() {
            let ghost after = before.update(i as int, (key, value));
            proof {
                assert(distinct(after)) by {
                    assert forall|a: int, b: int| 0 <= a < b < after.len() implies (
                    #[trigger] after[a]).0@ != (#[trigger] after[b]).0@ by {
                        assert(before[a].0@ != before[b].0@);
                    }
                }
                lemma_map_of(after);
                assert(map_of(after) =~= map_of(before).insert(key@, value)) by {
                    assert forall|k: Seq<char>| #[trigger]
                        map_of(after).contains_key(k) <==> map_of(before).insert(
                            key@,
                            value,
                        ).contains_key(k) by {
                        if map_of(after).contains_key(k) {
                            let j = choose|j: int|
                                0 <= j < after.len() && (#[trigger] after[j]).0@ == k;
                            assert(before[j].0@ == k);
                        }
                        if map_of(before).contains_key(k) {
                            let j = choose|j: int|
                                0 <= j < before.len() && (#[trigger] before[j]).0@ == k;
                            assert(after[j].0@ == k);
                        }
                        assert(after[i as int].0@ == key@);
                    }
                    assert forall|k: Seq<char>|
                        map_of(after).contains_key(k) implies #[trigger] map_of(after)[k]
                        == map_of(before).insert(key@, value)[k] by {
                        let j = choose|j: int|
                            0 <= j < after.len() && (#[trigger] after[j]).0@ == k;
                        assert(before[j].0@ == k);
                    }
                }
            }
            self.entries.set(i, (key, value));
        } else {
            self.entries.push((key, value));
            proof {
                let after = self.entries@;
                assert(after.drop_last() =~= before);
            }
        }
    }

    /// Takes a key out of the map.
    pub fn remove(&mut self, key: &str) -> (r: Option<V>)
        requires
            old(self).wf(),
        ensures
            final(self).wf(),
            final(self)@ == old(self)@.remove(key@),
            match r {
                Some(v) => old(self)@.contains_key(key@) && v == old(self)@[key@],
                None => !old(self)@.contains_key(key@),
            },
    {
        let i = self.find(key);
        let ghost before = self.entries@;
        proof {
            lemma_map_of(before);
        }
        if i < self.entries.len() {
            let (_, value) = self.entries.remove(i);
            proof {
                let after = self.entries@;
                assert(after =~= before.remove(i as int));
                assert(distinct(after)) by {
                    assert forall|a: int, b: int| 0 <= a < b < after.len() implies (
                    #[trigger] after[a]).0@ != (#[trigger] after[b]).0@ by {
                        let a2 = if a < i { a } else { a + 1 };
                        let b2 = if b < i { b } else { b + 1 };
                        assert(before[a2].0@ != before[b2].0@);
                    }
                }
                lemma_map_of(after);
                assert(map_of(after) =~= map_of(before).remove(key@)) by {
                    assert forall|k: Seq<char>| #[trigger]
                        map_of(after).contains_key(k) <==> map_of(before).remove(
                            key@,
                        ).contains_key(k) by {
                        if map_of(after).contains_key(k) {
                            let j = choose|j: int|
                                0 <= j < after.len() && (#[trigger] after[j]).0@ == k;
                            let j2 = if j < i { j } else { j + 1 };
                            assert(before[j2].0@ == k);
                        }
                        if map_of(before).contains_key(k) && k != key@ {
                            let j = choose|j: int|
                                0 <= j < before.len() && (#[trigger] before[j]).0@ == k;
                            let j2 = if j < i { j } else { j - 1 };
                            assert(after[j2].0@ == k);
                        }
                    }
                    assert forall|k: Seq<char>|
                        map_of(after).contains_key(k) implies #[trigger] map_of(after)[k]
                        == map_of(before).remove(key@)[k] by {
                        let j = choose|j: int|
                            0 <= j < after.len() && (#[trigger] after[j]).0@ == k;
                        let j2 = if j < i { j } else { j + 1 };
                        assert(before[j2].0@ == k);
                    }
                }
            }
            Some(value)
        } else {
            assert(map_of(before).remove(key@) =~= map_of(before));
            None
        }
    }
}

} // verus!
