//! Lists of strings in ascending order.

use crate::text::{sorted_texts, str_lt, text_lt, text_lt_asymmetric, text_lt_irreflexive, text_lt_total,
    text_lt_transitive, texts};
use vstd::prelude::*;
use vstd::relations::{sorted_by, total_ordering};

verus! {

/// The order of strings: `a` does not come behind `b`.
pub open spec fn text_le() -> spec_fn(Seq<char>, Seq<char>) -> bool {
    |a: Seq<char>, b: Seq<char>| !text_lt(b, a)
}

/// The strings of `t` in ascending order, each as often as it stands in `t`.
pub open spec fn sort_texts(t: Seq<Seq<char>>) -> Seq<Seq<char>> {
    t.sort_by(text_le())
}

/// The order of strings is total.
pub proof fn text_order_is_total()
    ensures
        total_ordering(text_le()),
{
    let le = text_le();
    assert forall|a: Seq<char>| #[trigger] le(a, a) by {
        text_lt_irreflexive(a);
    }
    assert forall|a: Seq<char>, b: Seq<char>| #[trigger] le(a, b) && #[trigger] le(b, a) implies a
        == b by {
        if a != b {
            text_lt_total(a, b);
        }
    }
    assert forall|a: Seq<char>, b: Seq<char>, c: Seq<char>| #[trigger]
        le(a, b) && #[trigger] le(b, c) implies le(a, c) by {
        if text_lt(c, a) {
            if a == b {
            } else {
                text_lt_total(a, b);
                text_lt_transitive(c, a, b);
            }
        }
    }
    assert forall|a: Seq<char>, b: Seq<char>| #[trigger] le(a, b) || #[trigger] le(b, a) by {
        if text_lt(a, b) {
            text_lt_asymmetric(a, b);
        }
    }
}

/// The sorted list does not depend on the order of the list.
pub proof fn sorting_ignores_order(a: Seq<Seq<char>>, b: Seq<Seq<char>>)
    requires
        a.to_multiset() == b.to_multiset(),
    ensures
        sort_texts(a) == sort_texts(b),
{
    text_order_is_total();
    a.lemma_sort_by_ensures(text_le());
    b.lemma_sort_by_ensures(text_le());
    vstd::seq_lib::lemma_sorted_unique(sort_texts(a), sort_texts(b), text_le());
}

proof fn inserted_is_sorted(t: Seq<Seq<char>>, pos: int, s: Seq<char>)
    requires
        0 <= pos <= t.len(),
        sorted_by(t, text_le()),
        forall|i: int| pos <= i < t.len() ==> text_lt(s, #[trigger] t[i]),
        pos > 0 ==> !text_lt(s, t[pos - 1]),
    ensures
        sorted_by(t.insert(pos, s), text_le()),
{
    text_order_is_total();
    let le = text_le();
    let r = t.insert(pos, s);
    assert forall|i: int, j: int| 0 <= i < j < r.len() implies #[trigger] le(r[i], r[j]) by {
        if j < pos {
            assert(le(t[i], t[j]));
        } else if j == pos {
            assert(le(t[pos - 1], s));
            if i < pos - 1 {
                assert(le(t[i], t[pos - 1]));
            }
        } else if i == pos {
            assert(text_lt(s, t[j - 1]));
            text_lt_asymmetric(s, t[j - 1]);
        } else if i < pos {
            assert(le(t[i], t[j - 1]));
        } else {
            assert(le(t[i - 1], t[j - 1]));
        }
    }
}

/// The strings of `v` in ascending order.
pub fn sort_strings(v: Vec<String>) -> (r: Vec<String>)
    ensures
        texts(r@) == sort_texts(texts(v@)),
{
    let mut out: Vec<String> = Vec::new();
    let ghost t = texts(v@);
    let mut k: usize = 0;
    proof {
        assert(texts(out@) =~= Seq::<Seq<char>>::empty());
        assert(t.take(0) =~= Seq::<Seq<char>>::empty());
    }
    while k < v.len()
        invariant
            k <= v@.len(),
            t == texts(v@),
            sorted_by(texts(out@), text_le()),
            texts(out@).to_multiset() == t.take(k as int).to_multiset(),
        decreases v@.len() - k,
    {
        let s = v[k].clone();
        let mut pos: usize = out.len();
        while pos > 0 && str_lt(s.as_str(), out[pos - 1].as_str())
            invariant
                pos <= out@.len(),
                forall|i: int| pos <= i < out@.len() ==> text_lt(s@, #[trigger] texts(out@)[i]),
            decreases pos,
        {
            pos -= 1;
        }
        let ghost before = texts(out@);
        proof {
            inserted_is_sorted(before, pos as int, s@);
            vstd::seq_lib::to_multiset_insert(before, pos as int, s@);
            assert(t.take(k + 1) =~= t.take(k as int).push(t[k as int]));
            vstd::seq_lib::to_multiset_build(t.take(k as int), t[k as int]);
        }
        let ghost sv = s@;
        out.insert(pos, s);
        proof {
            assert(texts(out@) =~= before.insert(pos as int, sv));
        }
        k += 1;
    }
    proof {
        assert(t.take(k as int) =~= t);
        text_order_is_total();
        t.lemma_sort_by_ensures(text_le());
        vstd::seq_lib::lemma_sorted_unique(texts(out@), sort_texts(t), text_le());
    }
    out
}

/// The strings of a sorted list without repetitions, as `dedup` leaves them.
pub open spec fn deduped(t: Seq<Seq<char>>) -> Seq<Seq<char>>
    decreases t.len(),
{
    if t.len() == 0 {
        t
    } else {
        let head = deduped(t.drop_last());
        if head.len() > 0 && head.last() == t.last() {
            head
        } else {
            head.push(t.last())
        }
    }
}

/// Drops each string that repeats the one before it.
pub fn dedup_strings(v: Vec<String>) -> (r: Vec<String>)
    ensures
        texts(r@) == deduped(texts(v@)),
{
    let mut out: Vec<String> = Vec::new();
    let ghost t = texts(v@);
    let mut k: usize = 0;
    proof {
        assert(texts(out@) =~= t.take(0));
    }
    while k < v.len()
        invariant
            k <= v@.len(),
            t == texts(v@),
            texts(out@) == deduped(t.take(k as int)),
        decreases v@.len() - k,
    {
        proof {
            assert(t.take(k + 1).drop_last() =~= t.take(k as int));
        }
        let n: usize = out.len();
        if n > 0 && crate::text::str_eq(out[n - 1].as_str(), v[k].as_str()) {
            proof {
                assert(texts(out@).last() == out@[n - 1]@);
            }
        } else {
            let ghost before = texts(out@);
            proof {
                if n > 0 {
                    assert(before.last() == out@[n - 1]@);
                }
            }
            out.push(v[k].clone());
            proof {
                assert(texts(out@) =~= before.push(t[k as int]));
            }
        }
        k += 1;
    }
    proof {
        assert(t.take(k as int) =~= t);
    }
    out
}

/// Without repetitions, a sorted list strictly ascends, and holds the same
/// strings.
pub proof fn deduped_is_strict(t: Seq<Seq<char>>)
    requires
        sorted_by(t, text_le()),
    ensures
        sorted_texts(deduped(t)),
        t.len() > 0 ==> deduped(t).len() > 0 && deduped(t).last() == t.last(),
        forall|x: Seq<char>| #[trigger] deduped(t).contains(x) <==> t.contains(x),
    decreases t.len(),
{
    let le = text_le();
    if t.len() > 0 {
        let h = t.drop_last();
        assert forall|i: int, j: int| 0 <= i < j < h.len() implies #[trigger] le(h[i], h[j]) by {
            assert(le(t[i], t[j]));
        }
        deduped_is_strict(h);
        let head = deduped(h);
        let r = deduped(t);
        assert forall|x: Seq<char>| #[trigger] r.contains(x) <==> t.contains(x) by {
            if t.contains(x) {
                let k = choose|k: int| 0 <= k < t.len() && t[k] == x;
                if k < h.len() {
                    assert(h[k] == x);
                    assert(h.contains(x));
                    assert(head.contains(x));
                    let m = choose|m: int| 0 <= m < head.len() && head[m] == x;
                    assert(r[m] == x);
                } else {
                    assert(r[r.len() - 1] == x);
                }
            }
            if r.contains(x) {
                let k = choose|k: int| 0 <= k < r.len() && r[k] == x;
                if k < head.len() {
                    assert(head[k] == x);
                    assert(head.contains(x));
                    assert(h.contains(x));
                    let m = choose|m: int| 0 <= m < h.len() && h[m] == x;
                    assert(t[m] == x);
                } else {
                    assert(t[t.len() - 1] == x);
                }
            }
        }
        if !(head.len() > 0 && head.last() == t.last()) {
            assert forall|i: int, j: int|
                #![trigger r[i], r[j]]
                0 <= i < j < r.len() implies text_lt(r[i], r[j]) by {
                if j < head.len() {
                    assert(text_lt(head[i], head[j]));
                } else {
                    assert(head.last() == h.last());
                    assert(le(t[h.len() - 1], t[t.len() - 1]));
                    text_lt_total(h.last(), t.last());
                    if i < head.len() - 1 {
                        assert(text_lt(head[i], head[head.len() - 1]));
                        text_lt_transitive(head[i], head.last(), t.last());
                    }
                }
            }
        }
    }
}

/// The set of some texts: in ascending order, each once.
pub open spec fn text_set(t: Seq<Seq<char>>) -> Seq<Seq<char>> {
    deduped(sort_texts(t))
}

/// The set of some texts ascends and holds these texts.
pub proof fn text_set_members(t: Seq<Seq<char>>)
    ensures
        sorted_texts(text_set(t)),
        forall|x: Seq<char>| #[trigger] text_set(t).contains(x) <==> t.contains(x),
{
    text_order_is_total();
    t.lemma_sort_by_ensures(text_le());
    let s = sort_texts(t);
    deduped_is_strict(s);
    assert forall|x: Seq<char>| #[trigger] text_set(t).contains(x) <==> t.contains(x) by {
        broadcast use vstd::seq_lib::group_to_multiset_ensures;

        assert(s.contains(x) <==> s.to_multiset().contains(x));
        assert(t.contains(x) <==> t.to_multiset().contains(x));
        assert(text_set(t).contains(x) <==> s.contains(x));
    }
}

} // verus!
