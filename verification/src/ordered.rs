//! Tables with string keys that are walked in ascending order of their keys.

use crate::text::{
    clone_strings, contains_str, insert_sorted, join, join_strings, sorted_texts, str_eq, str_lt,
    text_lt, text_lt_asymmetric, text_lt_irreflexive, text_lt_total, text_lt_transitive, texts,
};
use crate::json::Json;
use crate::sorting::{
    dedup_strings, deduped, deduped_is_strict, sort_strings, sort_texts, text_le,
    text_order_is_total,
};
use crate::version::VersionReq;
use vstd::prelude::*;

verus! {

/// A table from strings to values, in ascending order of the keys.
#[derive(Debug, PartialEq, Eq)]
pub struct OrderedTable<V> {
    entries: Vec<(String, V)>,
}

/// The keys ascend.
pub open spec fn ascending_keys<T>(e: Seq<(Seq<char>, T)>) -> bool {
    forall|i: int, j: int|
        #![trigger e[i], e[j]]
        0 <= i < j < e.len() ==> text_lt(e[i].0, e[j].0)
}

/// The value under `key`.
pub open spec fn lookup<T>(e: Seq<(Seq<char>, T)>, key: Seq<char>) -> Option<T>
    decreases e.len(),
{
    if e.len() == 0 {
        None
    } else if e.last().0 == key {
        Some(e.last().1)
    } else {
        lookup(e.drop_last(), key)
    }
}

/// What is looked up stands in the list.
pub proof fn lookup_stands<T>(e: Seq<(Seq<char>, T)>, key: Seq<char>)
    ensures
        lookup(e, key) is Some ==> exists|i: int|
            0 <= i < e.len() && #[trigger] e[i] == (key, lookup(e, key)->0),
        lookup(e, key) is None ==> forall|i: int| 0 <= i < e.len() ==> (#[trigger] e[i]).0 != key,
    decreases e.len(),
{
    if e.len() > 0 && e.last().0 != key {
        let head = e.drop_last();
        lookup_stands(head, key);
        if lookup(e, key) is Some {
            let i = choose|i: int| 0 <= i < head.len() && head[i] == (key, lookup(head, key)->0);
            assert(e[i] == (key, lookup(e, key)->0));
        } else {
            assert forall|i: int| 0 <= i < e.len() implies (#[trigger] e[i]).0 != key by {
                if i < head.len() {
                    assert(head[i].0 != key);
                }
            }
        }
    } else if e.len() > 0 {
        assert(e[e.len() - 1] == (key, lookup(e, key)->0));
    }
}

/// What stands in a list with ascending keys is looked up.
pub proof fn standing_is_found<T>(e: Seq<(Seq<char>, T)>, i: int)
    requires
        ascending_keys(e),
        0 <= i < e.len(),
    ensures
        lookup(e, e[i].0) == Some(e[i].1),
{
    lookup_stands(e, e[i].0);
    if lookup(e, e[i].0) is None {
        assert(e[i].0 != e[i].0);
    } else {
        let j = choose|j: int| 0 <= j < e.len() && #[trigger] e[j] == (e[i].0, lookup(e, e[i].0)->0);
        text_lt_irreflexive(e[i].0);
        if i < j {
            assert(text_lt(e[i].0, e[j].0));
        } else if j < i {
            assert(text_lt(e[j].0, e[i].0));
        }
    }
}

/// Two lists with ascending keys that look up alike are the same list.
pub proof fn ascending_tables_are_unique<T>(a: Seq<(Seq<char>, T)>, b: Seq<(Seq<char>, T)>)
    requires
        ascending_keys(a),
        ascending_keys(b),
        forall|k: Seq<char>| #[trigger] lookup(a, k) == lookup(b, k),
    ensures
        a == b,
    decreases a.len(),
{
    if a.len() == 0 || b.len() == 0 {
        if b.len() > 0 {
            assert(lookup(b, b.last().0) is Some);
            assert(lookup(a, b.last().0) is None);
        }
        if a.len() > 0 {
            assert(lookup(a, a.last().0) is Some);
            assert(lookup(b, a.last().0) is None);
        }
        assert(a =~= b);
    } else {
        let ka = a.last().0;
        let kb = b.last().0;
        let a1 = a.drop_last();
        let b1 = b.drop_last();
        assert(lookup(a, ka) == lookup(b, ka));
        assert(lookup(a, kb) == lookup(b, kb));
        lookup_stands(b, ka);
        lookup_stands(a, kb);
        assert(ka == kb) by {
            if ka != kb {
                let i = choose|i: int|
                    0 <= i < b.len() && #[trigger] b[i] == (ka, lookup(b, ka)->0);
                let j = choose|j: int|
                    0 <= j < a.len() && #[trigger] a[j] == (kb, lookup(a, kb)->0);
                assert(text_lt(b[i].0, b[b.len() - 1].0));
                assert(text_lt(a[j].0, a[a.len() - 1].0));
                text_lt_asymmetric(ka, kb);
            }
        }
        assert(a.last() == b.last());
        assert forall|i: int, j: int|
            #![trigger a1[i], a1[j]]
            0 <= i < j < a1.len() implies text_lt(a1[i].0, a1[j].0) by {
            assert(text_lt(a[i].0, a[j].0));
        }
        assert forall|i: int, j: int|
            #![trigger b1[i], b1[j]]
            0 <= i < j < b1.len() implies text_lt(b1[i].0, b1[j].0) by {
            assert(text_lt(b[i].0, b[j].0));
        }
        assert forall|k: Seq<char>| #[trigger] lookup(a1, k) == lookup(b1, k) by {
            assert(lookup(a, k) == lookup(b, k));
            if k == ka {
                text_lt_irreflexive(ka);
                lookup_stands(a1, ka);
                lookup_stands(b1, ka);
                if lookup(a1, ka) is Some {
                    let i = choose|i: int|
                        0 <= i < a1.len() && #[trigger] a1[i] == (ka, lookup(a1, ka)->0);
                    assert(text_lt(a[i].0, a[a.len() - 1].0));
                }
                if lookup(b1, ka) is Some {
                    let i = choose|i: int|
                        0 <= i < b1.len() && #[trigger] b1[i] == (ka, lookup(b1, ka)->0);
                    assert(text_lt(b[i].0, b[b.len() - 1].0));
                }
            }
        }
        ascending_tables_are_unique(a1, b1);
        assert(a =~= a1.push(a.last()));
        assert(b =~= b1.push(b.last()));
    }
}

/// The models of a list of entries.
pub open spec fn entry_views<V: View>(e: Seq<(String, V)>) -> Seq<(Seq<char>, V::V)> {
    e.map_values(|x: (String, V)| (x.0@, x.1@))
}

/// No two entries share a key.
pub open spec fn distinct_keys<T>(e: Seq<(Seq<char>, T)>) -> bool {
    forall|i: int, j: int| #![trigger e[i], e[j]] 0 <= i < j < e.len() ==> e[i].0 != e[j].0
}

proof fn lookup_behind<T>(e: (Seq<char>, T), tail: Seq<(Seq<char>, T)>, key: Seq<char>)
    ensures
        lookup(Seq::empty().push(e) + tail, key) == (if lookup(tail, key) is Some {
            lookup(tail, key)
        } else if e.0 == key {
            Some(e.1)
        } else {
            None
        }),
    decreases tail.len(),
{
    let all = Seq::empty().push(e) + tail;
    if tail.len() == 0 {
        assert(all.drop_last() =~= Seq::<(Seq<char>, T)>::empty());
        assert(all.last() == e);
        assert(lookup(all.drop_last(), key) is None);
    } else {
        assert(all.last() == tail.last());
        assert(all.drop_last() =~= Seq::empty().push(e) + tail.drop_last());
        lookup_behind(e, tail.drop_last(), key);
    }
}

impl<V: View> View for OrderedTable<V> {
    type V = Seq<(Seq<char>, V::V)>;

    closed spec fn view(&self) -> Seq<(Seq<char>, V::V)> {
        self.entries@.map_values(|e: (String, V)| (e.0@, e.1@))
    }
}

impl<V: View> OrderedTable<V> {
    /// The keys ascend.
    pub open spec fn wf(&self) -> bool {
        ascending_keys(self@)
    }

    /// The empty table.
    pub fn new() -> (r: OrderedTable<V>)
        ensures
            r.wf(),
            r@ == Seq::<(Seq<char>, V::V)>::empty(),
    {
        let r = OrderedTable { entries: Vec::new() };
        proof {
            assert(r@ =~= Seq::<(Seq<char>, V::V)>::empty());
        }
        r
    }

    /// The table of the given entries, unless two of them share a key.
    pub fn from_unique(entries: Vec<(String, V)>) -> (r: Option<OrderedTable<V>>)
        ensures
            match r {
                Some(t) => {
                    &&& distinct_keys(entry_views(entries@))
                    &&& t.wf()
                    &&& forall|k: Seq<char>| #[trigger]
                        lookup(t@, k) == lookup(entry_views(entries@), k)
                },
                None => !distinct_keys(entry_views(entries@)),
            },
    {
        let ghost all = entry_views(entries@);
        let ghost given = entries@;
        let mut rest = entries;
        let mut t: OrderedTable<V> = OrderedTable::new();
        proof {
            assert(given.take(given.len() as int) =~= given);
            assert(all.skip(all.len() as int) =~= Seq::<(Seq<char>, V::V)>::empty());
        }
        while rest.len() > 0
            invariant
                given == entries@,
                all == entry_views(given),
                rest@.len() <= given.len(),
                rest@ == given.take(rest@.len() as int),
                t.wf(),
                distinct_keys(all.skip(rest@.len() as int)),
                forall|k: Seq<char>| #[trigger]
                    lookup(t@, k) == lookup(all.skip(rest@.len() as int), k),
            decreases rest@.len(),
        {
            let ghost n = rest@.len() as int;
            let ghost tail = all.skip(n);
            let ghost before = t@;
            match rest.pop() {
                Some((key, value)) => {
                    let ghost e = (key@, value@);
                    proof {
                        assert(all[n - 1] == e);
                        assert(all.skip(n - 1) =~= Seq::empty().push(e) + tail);
                        assert(given.take(n).drop_last() =~= given.take(n - 1));
                        lookup_stands(tail, e.0);
                        lookup_behind(e, tail, e.0);
                    }
                    if t.contains_key(key.as_str()) {
                        proof {
                            assert(lookup(before, e.0) == lookup(tail, e.0));
                            let i = choose|i: int|
                                0 <= i < tail.len() && #[trigger] tail[i] == (
                                    e.0,
                                    lookup(tail, e.0)->0,
                                );
                            assert(all[n + i] == tail[i]);
                            assert(all[n - 1].0 == all[n + i].0);
                        }
                        return None;
                    }
                    t.insert(key, value);
                    proof {
                        let now = all.skip(n - 1);
                        assert(lookup(before, e.0) == lookup(tail, e.0));
                        assert forall|k: Seq<char>| #[trigger] lookup(t@, k) == lookup(now, k) by {
                            lookup_behind(e, tail, k);
                            if k != e.0 {
                                assert(lookup(before, k) == lookup(tail, k));
                            }
                        }
                        assert forall|i: int, j: int|
                            #![trigger now[i], now[j]]
                            0 <= i < j < now.len() implies now[i].0 != now[j].0 by {
                            assert(now[j] == tail[j - 1]);
                            if i > 0 {
                                assert(now[i] == tail[i - 1]);
                            }
                        }
                    }
                },
                None => {},
            }
        }
        proof {
            assert(all.skip(0) =~= all);
        }
        Some(t)
    }

    /// The entries in order.
    pub fn into_entries(self) -> (r: Vec<(String, V)>)
        ensures
            r@.map_values(|e: (String, V)| (e.0@, e.1@)) == self@,
    {
        self.entries
    }

    /// The number of entries.
    pub fn len(&self) -> (r: usize)
        ensures
            r == self@.len(),
    {
        self.entries.len()
    }

    /// The key at a position.
    pub fn key_at(&self, i: usize) -> (r: &str)
        requires
            i < self@.len(),
        ensures
            r@ == self@[i as int].0,
    {
        self.entries[i].0.as_str()
    }

    /// The value at a position.
    pub fn value_at(&self, i: usize) -> (r: &V)
        requires
            i < self@.len(),
        ensures
            r@ == self@[i as int].1,
    {
        &self.entries[i].1
    }

    /// The value under `key`.
    pub fn get(&self, key: &str) -> (r: Option<&V>)
        requires
            self.wf(),
        ensures
            match r {
                Some(v) => lookup(self@, key@) == Some(v@),
                None => lookup(self@, key@) is None,
            },
    {
        let mut i: usize = 0;
        while i < self.entries.len()
            invariant
                i <= self.entries@.len(),
                self.wf(),
                self@.len() == self.entries@.len(),
                forall|k: int| 0 <= k < i ==> (#[trigger] self@[k]).0 != key@,
            decreases self.entries@.len() - i,
        {
            if str_eq(self.entries[i].0.as_str(), key) {
                proof {
                    standing_is_found(self@, i as int);
                }
                return Some(&self.entries[i].1);
            }
            i += 1;
        }
        proof {
            lookup_stands(self@, key@);
        }
        None
    }

    /// Whether `key` stands in the table.
    pub fn contains_key(&self, key: &str) -> (r: bool)
        requires
            self.wf(),
        ensures
            r == (lookup(self@, key@) is Some),
    {
        self.get(key).is_some()
    }

    /// Puts `value` under `key`, in place of what stood there.
    pub fn insert(&mut self, key: String, value: V)
        requires
            old(self).wf(),
        ensures
            final(self).wf(),
            lookup(final(self)@, key@) == Some(value@),
            forall|k: Seq<char>|
                k != key@ ==> #[trigger] lookup(final(self)@, k) == lookup(old(self)@, k),
            final(self)@.len() == old(self)@.len() + (if lookup(old(self)@, key@) is Some {
                0int
            } else {
                1int
            }),
    {
        let ghost before = self@;
        let ghost kv = key@;
        let ghost vv = value@;
        let mut i: usize = 0;
        while i < self.entries.len() && str_lt(self.entries[i].0.as_str(), key.as_str())
            invariant
                i <= self.entries@.len(),
                self.wf(),
                self@ == before,
                *self == *old(self),
                self@.len() == self.entries@.len(),
                kv == key@,
                forall|k: int| 0 <= k < i ==> text_lt((#[trigger] before[k]).0, kv),
            decreases self.entries@.len() - i,
        {
            i += 1;
        }
        proof {
            lookup_stands(before, kv);
        }
        if i < self.entries.len() && str_eq(self.entries[i].0.as_str(), key.as_str()) {
            proof {
                standing_is_found(before, i as int);
            }
            self.entries.set(i, (key, value));
            proof {
                assert(self@ =~= before.update(i as int, (kv, vv)));
                replaced(before, i as int, kv, vv);
            }
        } else {
            proof {
                if i < before.len() {
                    assert(before[i as int].0 == self.entries@[i as int].0@);
                    text_lt_total(kv, before[i as int].0);
                }
                assert forall|k: int| i <= k < before.len() implies text_lt(
                    kv,
                    (#[trigger] before[k]).0,
                ) by {
                    if k > i {
                        assert(text_lt(before[i as int].0, before[k].0));
                        text_lt_transitive(kv, before[i as int].0, before[k].0);
                    }
                }
                inserted(before, i as int, kv, vv);
                if lookup(before, kv) is Some {
                    let j = choose|j: int|
                        0 <= j < before.len() && #[trigger] before[j] == (kv, lookup(before, kv)->0);
                    text_lt_irreflexive(kv);
                }
            }
            self.entries.insert(i, (key, value));
            proof {
                assert(self@ =~= before.insert(i as int, (kv, vv)));
            }
        }
    }
}

impl Clone for OrderedTable<VersionReq> {
    fn clone(&self) -> (r: OrderedTable<VersionReq>)
        ensures
            r@ == self@,
    {
        let mut out: Vec<(String, VersionReq)> = Vec::new();
        let mut i: usize = 0;
        while i < self.entries.len()
            invariant
                i <= self.entries@.len(),
                out@.len() == i,
                forall|k: int|
                    0 <= k < i ==> (#[trigger] out@[k]).0@ == self.entries@[k].0@ && out@[k].1@
                        == self.entries@[k].1@,
            decreases self.entries@.len() - i,
        {
            out.push((self.entries[i].0.clone(), self.entries[i].1.clone()));
            i += 1;
        }
        let r = OrderedTable { entries: out };
        proof {
            assert(r@ =~= self@);
        }
        r
    }
}

impl Clone for OrderedTable<TextSet> {
    fn clone(&self) -> (r: OrderedTable<TextSet>)
        ensures
            r@ == self@,
    {
        let mut out: Vec<(String, TextSet)> = Vec::new();
        let mut i: usize = 0;
        while i < self.entries.len()
            invariant
                i <= self.entries@.len(),
                out@.len() == i,
                forall|k: int|
                    0 <= k < i ==> (#[trigger] out@[k]).0@ == self.entries@[k].0@ && out@[k].1@
                        == self.entries@[k].1@,
            decreases self.entries@.len() - i,
        {
            out.push((self.entries[i].0.clone(), self.entries[i].1.clone()));
            i += 1;
        }
        let r = OrderedTable { entries: out };
        proof {
            assert(r@ =~= self@);
        }
        r
    }
}

impl Clone for OrderedTable<Json> {
    fn clone(&self) -> (r: OrderedTable<Json>)
        ensures
            r@ == self@,
    {
        let mut out: Vec<(String, Json)> = Vec::new();
        let mut i: usize = 0;
        while i < self.entries.len()
            invariant
                i <= self.entries@.len(),
                out@.len() == i,
                forall|k: int|
                    0 <= k < i ==> (#[trigger] out@[k]).0@ == self.entries@[k].0@ && out@[k].1@
                        == self.entries@[k].1@,
            decreases self.entries@.len() - i,
        {
            out.push((self.entries[i].0.clone(), self.entries[i].1.clone()));
            i += 1;
        }
        let r = OrderedTable { entries: out };
        proof {
            assert(r@ =~= self@);
        }
        r
    }
}

proof fn replaced<T>(e: Seq<(Seq<char>, T)>, i: int, key: Seq<char>, value: T)
    requires
        ascending_keys(e),
        0 <= i < e.len(),
        e[i].0 == key,
    ensures
        ascending_keys(e.update(i, (key, value))),
        lookup(e.update(i, (key, value)), key) == Some(value),
        forall|k: Seq<char>|
            k != key ==> #[trigger] lookup(e.update(i, (key, value)), k) == lookup(e, k),
{
    let r = e.update(i, (key, value));
    assert forall|a: int, b: int|
        #![trigger r[a], r[b]]
        0 <= a < b < r.len() implies text_lt(r[a].0, r[b].0) by {
        assert(text_lt(e[a].0, e[b].0));
    }
    standing_is_found(r, i);
    assert forall|k: Seq<char>| k != key implies #[trigger] lookup(r, k) == lookup(e, k) by {
        lookup_stands(e, k);
        lookup_stands(r, k);
        if lookup(e, k) is Some {
            let j = choose|j: int| 0 <= j < e.len() && #[trigger] e[j] == (k, lookup(e, k)->0);
            assert(r[j] == e[j]);
            standing_is_found(r, j);
        } else if lookup(r, k) is Some {
            let j = choose|j: int| 0 <= j < r.len() && #[trigger] r[j] == (k, lookup(r, k)->0);
            assert(e[j] == r[j]);
        }
    }
}

proof fn inserted<T>(e: Seq<(Seq<char>, T)>, i: int, key: Seq<char>, value: T)
    requires
        ascending_keys(e),
        0 <= i <= e.len(),
        forall|k: int| 0 <= k < i ==> text_lt((#[trigger] e[k]).0, key),
        forall|k: int| i <= k < e.len() ==> text_lt(key, (#[trigger] e[k]).0),
    ensures
        ascending_keys(e.insert(i, (key, value))),
        lookup(e.insert(i, (key, value)), key) == Some(value),
        forall|k: Seq<char>|
            k != key ==> #[trigger] lookup(e.insert(i, (key, value)), k) == lookup(e, k),
{
    let r = e.insert(i, (key, value));
    assert forall|a: int, b: int|
        #![trigger r[a], r[b]]
        0 <= a < b < r.len() implies text_lt(r[a].0, r[b].0) by {
        if b < i {
            assert(text_lt(e[a].0, e[b].0));
        } else if b == i {
            assert(text_lt(e[a].0, key));
        } else if a == i {
            assert(text_lt(key, e[b - 1].0));
        } else if a < i {
            assert(text_lt(e[a].0, e[b - 1].0));
        } else {
            assert(text_lt(e[a - 1].0, e[b - 1].0));
        }
    }
    standing_is_found(r, i);
    assert forall|k: Seq<char>| k != key implies #[trigger] lookup(r, k) == lookup(e, k) by {
        lookup_stands(e, k);
        lookup_stands(r, k);
        if lookup(e, k) is Some {
            let j = choose|j: int| 0 <= j < e.len() && #[trigger] e[j] == (k, lookup(e, k)->0);
            if j < i {
                assert(r[j] == e[j]);
                standing_is_found(r, j);
            } else {
                assert(r[j + 1] == e[j]);
                standing_is_found(r, j + 1);
            }
        } else if lookup(r, k) is Some {
            let j = choose|j: int| 0 <= j < r.len() && #[trigger] r[j] == (k, lookup(r, k)->0);
            if j < i {
                assert(e[j] == r[j]);
            } else if j > i {
                assert(e[j - 1] == r[j]);
            }
        }
    }
}

/// A set of strings in ascending order.
#[derive(Debug, PartialEq, Eq)]
pub struct TextSet {
    items: Vec<String>,
}

impl View for TextSet {
    type V = Seq<Seq<char>>;

    closed spec fn view(&self) -> Seq<Seq<char>> {
        texts(self.items@)
    }
}

impl Clone for TextSet {
    fn clone(&self) -> (r: TextSet)
        ensures
            r@ == self@,
    {
        TextSet { items: clone_strings(&self.items) }
    }
}

impl TextSet {
    /// The strings ascend.
    pub open spec fn wf(&self) -> bool {
        sorted_texts(self@)
    }

    /// The empty set.
    pub fn new() -> (r: TextSet)
        ensures
            r.wf(),
            r@ == Seq::<Seq<char>>::empty(),
    {
        let r = TextSet { items: Vec::new() };
        proof {
            assert(r@ =~= Seq::<Seq<char>>::empty());
        }
        r
    }

    /// The set of the strings in a list.
    pub fn from_list(v: Vec<String>) -> (r: TextSet)
        ensures
            r.wf(),
            r@ == deduped(sort_texts(texts(v@))),
    {
        let ghost t = texts(v@);
        proof {
            text_order_is_total();
            t.lemma_sort_by_ensures(text_le());
            deduped_is_strict(sort_texts(t));
        }
        TextSet { items: dedup_strings(sort_strings(v)) }
    }

    /// Puts a string into the set.
    pub fn insert(&mut self, s: String)
        requires
            old(self).wf(),
        ensures
            final(self).wf(),
            forall|t: Seq<char>| #[trigger]
                final(self)@.contains(t) <==> old(self)@.contains(t) || t == s@,
    {
        insert_sorted(&mut self.items, s);
    }

    /// Whether a string stands in the set.
    pub fn contains(&self, s: &str) -> (r: bool)
        ensures
            r == self@.contains(s@),
    {
        contains_str(&self.items, s)
    }

    /// The number of strings.
    pub fn len(&self) -> (r: usize)
        ensures
            r == self@.len(),
    {
        self.items.len()
    }

    /// The string at a position.
    pub fn at(&self, i: usize) -> (r: &str)
        requires
            i < self@.len(),
        ensures
            r@ == self@[i as int],
    {
        self.items[i].as_str()
    }

    /// The strings with a separator between them.
    pub fn join(&self, c: char) -> (r: String)
        ensures
            r@ == join(self@, c),
    {
        join_strings(&self.items, c)
    }

    /// The strings as a list.
    pub fn to_vec(&self) -> (r: Vec<String>)
        ensures
            texts(r@) == self@,
    {
        clone_strings(&self.items)
    }

    /// Whether every string stands in `other` too.
    pub fn is_subset(&self, other: &TextSet) -> (r: bool)
        ensures
            r == all_within(self@, other@),
    {
        let mut i: usize = 0;
        while i < self.items.len()
            invariant
                i <= self.items@.len(),
                self@.len() == self.items@.len(),
                forall|k: int| 0 <= k < i ==> other@.contains(#[trigger] self@[k]),
            decreases self.items@.len() - i,
        {
            if !other.contains(self.items[i].as_str()) {
                proof {
                    assert(!other@.contains(self@[i as int]));
                }
                return false;
            }
            i += 1;
        }
        true
    }
}

/// Every string of `a` stands in `b`.
pub open spec fn all_within(a: Seq<Seq<char>>, b: Seq<Seq<char>>) -> bool {
    forall|i: int| 0 <= i < a.len() ==> b.contains(#[trigger] a[i])
}

} // verus!
