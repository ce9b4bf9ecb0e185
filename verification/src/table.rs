//! A keyed table: an association list with at most one entry per key, kept in
//! the order in which keys were first inserted.

use crate::text::str_eq;
use vstd::prelude::*;

verus! {

/// Values under string keys. Its view is the map from key to value.
#[derive(Debug)]
pub struct Table<V> {
    entries: Vec<(String, V)>,
}

impl<V: View> Table<V> {
    /// The keys, in insertion order.
    pub closed spec fn keys(&self) -> Seq<Seq<char>> {
        self.entries@.map_values(|e: (String, V)| e.0@)
    }

    /// No key occurs twice.
    pub open spec fn wf(&self) -> bool {
        self.keys().no_duplicates()
    }

    /// The position at which `k` stands.
    pub closed spec fn position(&self, k: Seq<char>) -> int {
        choose|i: int| 0 <= i < self.entries@.len() && self.entries@[i].0@ == k
    }
}

impl<V: View> View for Table<V> {
    type V = Map<Seq<char>, V::V>;

    closed spec fn view(&self) -> Map<Seq<char>, V::V> {
        Map::new(
            |k: Seq<char>| self.keys().contains(k),
            |k: Seq<char>| self.entries@[self.position(k)].1@,
        )
    }
}

/// Every key in a well-formed table stands at one position, whose value is the
/// one the view gives for it.
proof fn table_entries<V: View>(t: &Table<V>)
    requires
        t.wf(),
    ensures
        forall|k: Seq<char>| #[trigger] t@.dom().contains(k) <==> t.keys().contains(k),
        forall|i: int|
            0 <= i < t.entries@.len() ==> t@.dom().contains(#[trigger] t.keys()[i])
                && t@[t.keys()[i]] == t.entries@[i].1@ && t.keys()[i] == t.entries@[i].0@,
        t.keys().len() == t.entries@.len(),
{
    assert forall|i: int| 0 <= i < t.entries@.len() implies t@.dom().contains(
        #[trigger] t.keys()[i],
    ) && t@[t.keys()[i]] == t.entries@[i].1@ && t.keys()[i] == t.entries@[i].0@ by {
        let k = t.keys()[i];
        assert(t.entries@[i].0@ == k);
        let p = t.position(k);
        assert(0 <= p < t.entries@.len() && t.entries@[p].0@ == k);
        assert(t.keys()[p] == k);
    }
}

/// The keys of a table are the domain of its view, which is finite.
pub proof fn table_keys<V: View>(t: &Table<V>)
    ensures
        forall|k: Seq<char>| #[trigger] t@.dom().contains(k) <==> t.keys().contains(k),
        t@.dom().finite(),
{
    assert(t@.dom() =~= t.keys().to_set());
    vstd::seq_lib::seq_to_set_is_finite(t.keys());
}

impl<V: View> Table<V> {
    /// An empty table.
    pub fn new() -> (r: Self)
        ensures
            r.wf(),
            r@ == Map::<Seq<char>, V::V>::empty(),
            r.keys().len() == 0,
    {
        let r = Table { entries: Vec::new() };
        proof {
            assert(r@ =~= Map::<Seq<char>, V::V>::empty());
        }
        r
    }

    /// The number of entries.
    pub fn len(&self) -> (r: usize)
        ensures
            r == self.keys().len(),
    {
        self.entries.len()
    }

    fn find(&self, k: &str) -> (r: Option<usize>)
        requires
            self.wf(),
        ensures
            match r {
                Some(i) => i < self.keys().len() && self.keys()[i as int] == k@,
                None => !self@.dom().contains(k@),
            },
    {
        let mut i: usize = 0;
        while i < self.entries.len()
            invariant
                i <= self.entries@.len(),
                forall|j: int| 0 <= j < i ==> self.keys()[j] != k@,
            decreases self.entries@.len() - i,
        {
            if str_eq(self.entries[i].0.as_str(), k) {
                return Some(i);
            }
            i += 1;
        }
        proof {
            table_entries(self);
        }
        None
    }

    /// Whether `k` has an entry.
    pub fn contains_key(&self, k: &str) -> (r: bool)
        requires
            self.wf(),
        ensures
            r == self@.dom().contains(k@),
    {
        let f = self.find(k);
        proof {
            table_entries(self);
        }
        f.is_some()
    }

    /// The value under `k`.
    pub fn get(&self, k: &str) -> (r: Option<&V>)
        requires
            self.wf(),
        ensures
            match r {
                Some(v) => self@.dom().contains(k@) && v@ == self@[k@],
                None => !self@.dom().contains(k@),
            },
    {
        let f = self.find(k);
        proof {
            table_entries(self);
        }
        match f {
            Some(i) => Some(&self.entries[i].1),
            None => None,
        }
    }

    /// The key at position `i`.
    pub fn key_at(&self, i: usize) -> (r: &String)
        requires
            i < self.keys().len(),
        ensures
            r@ == self.keys()[i as int],
    {
        &self.entries[i].0
    }

    /// The value at position `i`.
    pub fn value_at(&self, i: usize) -> (r: &V)
        requires
            self.wf(),
            i < self.keys().len(),
        ensures
            self@.dom().contains(self.keys()[i as int]),
            r@ == self@[self.keys()[i as int]],
    {
        proof {
            table_entries(self);
        }
        &self.entries[i].1
    }

    /// Puts `v` under `k`, in place of the value that stood there.
    pub fn insert(&mut self, k: String, v: V)
        requires
            old(self).wf(),
        ensures
            final(self).wf(),
            final(self)@ == old(self)@.insert(k@, v@),
            old(self)@.dom().contains(k@) ==> final(self).keys() == old(self).keys(),
            !old(self)@.dom().contains(k@) ==> final(self).keys() == old(self).keys().push(k@),
    {
        let ghost before = *self;
        let ghost key = k@;
        let ghost val = v@;
        let f = self.find(k.as_str());
        proof {
            table_entries(&before);
        }
        match f {
            Some(i) => {
                self.entries[i] = (k, v);
                proof {
                    assert(self.keys() =~= before.keys());
                }
            },
            None => {
                self.entries.push((k, v));
                proof {
                    assert(self.keys() =~= before.keys().push(key));
                    assert forall|i: int, j: int|
                        0 <= i < j < self.keys().len() implies self.keys()[i]
                        != self.keys()[j] by {
                        if j == before.keys().len() {
                            assert(before.keys().contains(self.keys()[i]));
                        }
                    }
                }
            },
        }
        proof {
            table_entries(self);
            assert(self@ =~= before@.insert(key, val)) by {
                assert forall|q: Seq<char>| self@.dom().contains(q) <==> before@.insert(
                    key,
                    val,
                ).dom().contains(q) by {
                    if before.keys().contains(q) {
                        let p = choose|p: int| 0 <= p < before.keys().len() && before.keys()[p] == q;
                        assert(self.keys()[p] == q);
                    }
                    if q == key {
                        let p = if f is Some { f->0 as int } else { before.keys().len() as int };
                        assert(self.keys()[p] == q);
                    }
                    if self.keys().contains(q) {
                        let p = choose|p: int| 0 <= p < self.keys().len() && self.keys()[p] == q;
                        if p < before.keys().len() {
                            assert(before.keys()[p] == q);
                        }
                    }
                }
                assert forall|q: Seq<char>| self@.dom().contains(q) implies self@[q]
                    == before@.insert(key, val)[q] by {
                    let p = choose|p: int| 0 <= p < self.keys().len() && self.keys()[p] == q;
                    assert(self.keys()[p] == q);
                    if p < before.keys().len() {
                        assert(before.keys()[p] == q);
                    }
                }
            }
        }
    }

    /// Takes the entry under `k` out, if there is one.
    pub fn remove(&mut self, k: &str)
        requires
            old(self).wf(),
        ensures
            final(self).wf(),
            final(self)@ == old(self)@.remove(k@),
    {
        let ghost before = *self;
        let f = self.find(k);
        proof {
            table_entries(&before);
        }
        match f {
            Some(i) => {
                let _ = self.entries.remove(i);
                proof {
                    assert(self.keys() =~= before.keys().remove(i as int));
                    assert(self.wf());
                    table_entries(self);
                    assert forall|q: Seq<char>| self@.dom().contains(q) <==> before@.remove(
                        k@,
                    ).dom().contains(q) by {
                        if before.keys().contains(q) && q != k@ {
                            let p = choose|p: int|
                                0 <= p < before.keys().len() && before.keys()[p] == q;
                            let p2 = if p < i { p } else { p - 1 };
                            assert(self.keys()[p2] == q);
                        }
                        if self.keys().contains(q) {
                            let p = choose|p: int| 0 <= p < self.keys().len() && self.keys()[p] == q;
                            let p2 = if p < i { p } else { p + 1 };
                            assert(before.keys()[p2] == q);
                            assert(before.keys()[i as int] == k@);
                        }
                    }
                    assert forall|q: Seq<char>| self@.dom().contains(q) implies self@[q]
                        == before@.remove(k@)[q] by {
                        let p = choose|p: int| 0 <= p < self.keys().len() && self.keys()[p] == q;
                        let p2 = if p < i { p } else { p + 1 };
                        assert(before.keys()[p2] == q);
                        assert(self.keys()[p] == q);
                    }
                    assert(self@ =~= before@.remove(k@));
                }
            },
            None => {
                proof {
                    assert(self@ =~= before@.remove(k@));
                }
            },
        }
    }
}

} // verus!
