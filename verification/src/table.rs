//! A small table from texts to values, in order of arrival.

use vstd::prelude::*;

use crate::text::same;

verus! {

/// No key occurs twice.
pub open spec fn distinct_keys<V>(v: Seq<(String, V)>) -> bool {
    forall|i: int, j: int| 0 <= i < j < v.len() ==> (#[trigger] v[i]).0@ != (#[trigger] v[j]).0@
}

/// The value of each key.
pub open spec fn table_map<V>(v: Seq<(String, V)>) -> Map<Seq<char>, V> {
    Map::new(
        |k: Seq<char>| exists|i: int| 0 <= i < v.len() && (#[trigger] v[i]).0@ == k,
        |k: Seq<char>|
            {
                let i = choose|i: int| 0 <= i < v.len() && (#[trigger] v[i]).0@ == k;
                v[i].1
            },
    )
}

/// Each key occurs once, so the map gives back each entry.
pub proof fn lemma_table_map<V>(v: Seq<(String, V)>)
    requires
        distinct_keys(v),
    ensures
        forall|i: int|
            0 <= i < v.len() ==> table_map(v).contains_key((#[trigger] v[i]).0@) && table_map(
                v,
            )[v[i].0@] == v[i].1,
{
    assert forall|i: int| 0 <= i < v.len() implies table_map(v).contains_key((#[trigger] v[i]).0@)
        && table_map(v)[v[i].0@] == v[i].1 by {
        let j = choose|j: int| 0 <= j < v.len() && (#[trigger] v[j]).0@ == v[i].0@;
        if i < j {
            assert(v[i].0@ != v[j].0@);
        } else if j < i {
            assert(v[j].0@ != v[i].0@);
        }
    }
}

/// A table from texts to values.
pub struct Table<V> {
    pub entries: Vec<(String, V)>,
}

impl<V> View for Table<V> {
    type V = Map<Seq<char>, V>;

    open spec fn view(&self) -> Map<Seq<char>, V> {
        table_map(self.entries@)
    }
}

impl<V> Table<V> {
    /// No key occurs twice.
    pub open spec fn wf(&self) -> bool {
        distinct_keys(self.entries@)
    }

    /// An empty table.
    pub fn new() -> (r: Table<V>)
        ensures
            r.wf(),
            r@ == Map::<Seq<char>, V>::empty(),
            r.entries@.len() == 0,
    {
        let r = Table { entries: Vec::new() };
        assert(r@ =~= Map::empty());
        r
    }

    /// The position of `key`.
    pub fn find(&self, key: &str) -> (r: Option<usize>)
        ensures
            match r {
                Some(i) => i < self.entries@.len() && self.entries@[i as int].0@ == key@
                    && self@.contains_key(key@) && (self.wf() ==> self@[key@]
                    == self.entries@[i as int].1),
                None => !self@.contains_key(key@),
            },
    {
        let mut i: usize = 0;
        while i < self.entries.len()
            invariant
                i <= self.entries@.len(),
                forall|j: int| 0 <= j < i ==> (#[trigger] self.entries@[j]).0@ != key@,
            decreases self.entries.len() - i,
        {
            if same(self.entries[i].0.as_str(), key) {
                proof {
                    assert(self.entries@[i as int].0@ == key@);
                    if self.wf() {
                        lemma_table_map(self.entries@);
                    }
                }
                return Some(i);
            }
            i += 1;
        }
        None
    }

    /// The value of `key`.
    pub fn get(&self, key: &str) -> (r: Option<&V>)
        requires
            self.wf(),
        ensures
            match r {
                Some(v) => self@.contains_key(key@) && *v == self@[key@],
                None => !self@.contains_key(key@),
            },
    {
        match self.find(key) {
            Some(i) => Some(&self.entries[i].1),
            None => None,
        }
    }

    /// Removes the entry at position `i`.
    pub fn take(&mut self, i: usize) -> (r: (String, V))
        requires
            old(self).wf(),
            i < old(self).entries@.len(),
        ensures
            final(self).wf(),
            r == old(self).entries@[i as int],
            final(self)@ == old(self)@.remove(r.0@),
            final(self).entries@ == old(self).entries@.remove(i as int),
    {
        let ghost before = self.entries@;
        let r = self.entries.remove(i);
        proof {
            let after = self.entries@;
            assert(forall|a: int|
                0 <= a < after.len() ==> after[a] == before[if a < i {
                    a
                } else {
                    a + 1
                }]);
            assert forall|a: int, b: int| 0 <= a < b < after.len() implies (#[trigger] after[a]).0@
                != (#[trigger] after[b]).0@ by {
                let p = if a < i {
                    a
                } else {
                    a + 1
                };
                let q = if b < i {
                    b
                } else {
                    b + 1
                };
                assert(before[p].0@ != before[q].0@);
            }
            lemma_table_map(before);
            lemma_table_map(after);
            let want = table_map(before).remove(r.0@);
            assert forall|k: Seq<char>| #[trigger] want.contains_key(k) implies table_map(
                after,
            ).contains_key(k) && table_map(after)[k] == want[k] by {
                let j = choose|j: int| 0 <= j < before.len() && (#[trigger] before[j]).0@ == k;
                let m = if j < i {
                    j
                } else {
                    j - 1
                };
                assert(after[m] == before[j]);
            }
            assert forall|k: Seq<char>| #[trigger]
                table_map(after).contains_key(k) implies want.contains_key(k) by {
                let j = choose|j: int| 0 <= j < after.len() && (#[trigger] after[j]).0@ == k;
                let m = if j < i {
                    j
                } else {
                    j + 1
                };
                assert(before[m] == after[j]);
                if m < i {
                    assert(before[m].0@ != before[i as int].0@);
                } else {
                    assert(before[i as int].0@ != before[m].0@);
                }
            }
            assert(table_map(after) =~= want);
        }
        r
    }

    /// Removes the entry of `key`, if there is one.
    pub fn remove(&mut self, key: &str)
        requires
            old(self).wf(),
        ensures
            final(self).wf(),
            final(self)@ == old(self)@.remove(key@),
            final(self).entries@.len() <= old(self).entries@.len(),
    {
        match self.find(key) {
            Some(i) => {
                self.take(i);
            },
            None => {
                assert(self@.remove(key@) =~= self@);
            },
        }
    }

    /// Adds an entry for a key that has none.
    pub fn push(&mut self, key: String, value: V)
        requires
            old(self).wf(),
            !old(self)@.contains_key(key@),
        ensures
            final(self).wf(),
            final(self)@ == old(self)@.insert(key@, value),
            final(self).entries@ == old(self).entries@.push((key, value)),
    {
        let ghost before = self.entries@;
        let ghost k = key@;
        self.entries.push((key, value));
        proof {
            let after = self.entries@;
            assert forall|a: int, b: int| 0 <= a < b < after.len() implies (#[trigger] after[a]).0@
                != (#[trigger] after[b]).0@ by {
                if b < before.len() {
                    assert(before[a].0@ != before[b].0@);
                } else {
                    assert(before[a].0@ != k);
                }
            }
            lemma_table_map(before);
            lemma_table_map(after);
            let want = table_map(before).insert(k, value);
            assert forall|x: Seq<char>| #[trigger] want.contains_key(x) implies table_map(
                after,
            ).contains_key(x) && table_map(after)[x] == want[x] by {
                if x == k {
                    assert(after[before.len() as int].0@ == k);
                } else {
                    let j = choose|j: int| 0 <= j < before.len() && (#[trigger] before[j]).0@ == x;
                    assert(after[j] == before[j]);
                }
            }
            assert forall|x: Seq<char>| #[trigger]
                table_map(after).contains_key(x) implies want.contains_key(x) by {
                let j = choose|j: int| 0 <= j < after.len() && (#[trigger] after[j]).0@ == x;
                if j < before.len() {
                    assert(before[j] == after[j]);
                }
            }
            assert(table_map(after) =~= want);
        }
    }

    /// Gives `key` a value, in place of the one it has.
    pub fn insert(&mut self, key: &str, value: V)
        requires
            old(self).wf(),
        ensures
            final(self).wf(),
            final(self)@ == old(self)@.insert(key@, value),
            final(self).entries@.len() <= old(self).entries@.len() + 1,
    {
        let ghost before = self@;
        self.remove(key);
        self.push(key.to_owned(), value);
        assert(before.remove(key@).insert(key@, value) =~= before.insert(key@, value));
    }
}

} // verus!
