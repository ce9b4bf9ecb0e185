//! What a canonical text tells of the value that it writes.

use crate::json::{
    canonical, canonical_items, items_error_stays, items_ok, joined, joined_error_stays, joined_ok,
    member_texts, member_texts_at, quoted, sorted, sorted_members, unique_keys, JsonView,
    MemberText,
};
use crate::text::{all_digits, decimal, decimal_digits, decimal_int};
use vstd::prelude::*;

verus! {

/// Both are the same value, but for the order in which objects list their
/// members: they list equally many, and each of one has its like in the other.
pub open spec fn same_value(a: JsonView, b: JsonView) -> bool
    decreases a,
{
    match a {
        JsonView::Array(x) => match b {
            JsonView::Array(y) => x.len() == y.len() && forall|i: int|
                0 <= i < x.len() ==> same_value(#[trigger] x[i], y[i]),
            _ => false,
        },
        JsonView::Object(x) => match b {
            JsonView::Object(y) => {
                &&& x.len() == y.len()
                &&& forall|i: int|
                    0 <= i < x.len() ==> exists|j: int|
                        0 <= j < y.len() && (#[trigger] x[i]).0 == (#[trigger] y[j]).0
                            && same_value(x[i].1, y[j].1)
            },
            _ => false,
        },
        _ => a == b,
    }
}

/// String literals can be read back: each starts with a quotation mark, and
/// where one ends does not depend on what follows it.
pub open spec fn literals_read_back() -> bool {
    &&& forall|s: Seq<char>| (#[trigger] quoted(s)).len() > 0 && quoted(s)[0] == '"'
    &&& forall|s: Seq<char>, x: Seq<char>, t: Seq<char>, y: Seq<char>|
        #![trigger quoted(s) + x, quoted(t) + y]
        quoted(s) + x == quoted(t) + y ==> s == t && x == y
}

/// A member with a key that occurs once is found in any object with the same
/// value.
pub proof fn members_correspond(
    x: Seq<(Seq<char>, JsonView)>,
    y: Seq<(Seq<char>, JsonView)>,
    i: int,
    j: int,
)
    requires
        same_value(JsonView::Object(x), JsonView::Object(y)),
        unique_keys(y),
        0 <= i < x.len(),
        0 <= j < y.len(),
        x[i].0 == y[j].0,
    ensures
        same_value(x[i].1, y[j].1),
{
    let k = choose|k: int|
        0 <= k < y.len() && x[i].0 == (#[trigger] y[k]).0 && same_value(x[i].1, y[k].1);
    assert(y[k].0 == y[j].0);
    if k < j {
        assert(y[k].0 != y[j].0);
    } else if j < k {
        assert(y[j].0 != y[k].0);
    }
}

/// What may follow a value in a text: nothing, a comma, or the end of what the
/// value stands in.
spec fn ends(x: Seq<char>) -> bool {
    x.len() == 0 || x[0] == ',' || x[0] == ']' || x[0] == '}'
}

proof fn same_split(p: Seq<char>, x: Seq<char>, q: Seq<char>, y: Seq<char>)
    requires
        p + x == q + y,
        p.len() == q.len(),
    ensures
        p == q,
        x == y,
{
    assert(p =~= (p + x).subrange(0, p.len() as int));
    assert(q =~= (q + y).subrange(0, q.len() as int));
    assert(x =~= (p + x).subrange(p.len() as int, (p + x).len() as int));
    assert(y =~= (q + y).subrange(q.len() as int, (q + y).len() as int));
}

proof fn numbers_read_back(a: nat, b: nat, x: Seq<char>, y: Seq<char>)
    requires
        decimal(a) + x == decimal(b) + y,
        ends(x),
        ends(y),
    ensures
        a == b,
        x == y,
{
    decimal_digits(a);
    decimal_digits(b);
    let p = decimal(a);
    let q = decimal(b);
    let s = p + x;
    assert(s == q + y);
    if p.len() < q.len() {
        assert(s[p.len() as int] == x[0]);
        assert((q + y)[p.len() as int] == q[p.len() as int]);
        assert(all_digits(q));
    } else if q.len() < p.len() {
        assert((q + y)[q.len() as int] == y[0]);
        assert(s[q.len() as int] == p[q.len() as int]);
        assert(all_digits(p));
    } else {
        same_split(p, x, q, y);
    }
}

/// The character that the text of a value starts with tells its kind.
spec fn starts(v: JsonView, c: char) -> bool {
    match v {
        JsonView::Null => c == 'n',
        JsonView::Bool(b) => c == (if b {
            't'
        } else {
            'f'
        }),
        JsonView::Int(n) => if n < 0 {
            c == '-'
        } else {
            '0' <= c && c <= '9'
        },
        JsonView::Str(_) => c == '"',
        JsonView::Array(_) => c == '[',
        JsonView::Object(_) => c == '{',
        JsonView::Number(_) => false,
    }
}

proof fn texts_start(v: JsonView)
    requires
        literals_read_back(),
        canonical(v) is Ok,
    ensures
        canonical(v)->Ok_0.len() > 0,
        starts(v, canonical(v)->Ok_0[0]),
{
    reveal_strlit("null");
    reveal_strlit("true");
    reveal_strlit("false");
    match v {
        JsonView::Int(n) => {
            if n < 0 {
                decimal_digits((-n) as nat);
            } else {
                decimal_digits(n as nat);
                assert(all_digits(decimal(n as nat)));
            }
        },
        _ => {},
    }
}

/// The texts of the items from `i` on, each behind a comma.
spec fn item_tail(items: Seq<JsonView>, i: int) -> Seq<char>
    decreases items.len() - i,
{
    if i < 0 || i >= items.len() {
        Seq::empty()
    } else {
        seq![','] + (canonical(items[i])->Ok_0 + item_tail(items, i + 1))
    }
}

proof fn items_upto(items: Seq<JsonView>, k: int)
    requires
        canonical_items(items) is Ok,
        1 <= k <= items.len(),
    ensures
        canonical_items(items.take(k)) is Ok,
        canonical_items(items)->Ok_0 == canonical_items(items.take(k))->Ok_0 + item_tail(items, k),
    decreases items.len() - k,
{
    if canonical_items(items.take(k)) is Err {
        items_error_stays(items, k);
    }
    if k == items.len() {
        assert(items.take(k) =~= items);
        assert(canonical_items(items)->Ok_0 + item_tail(items, k) =~= canonical_items(items)->Ok_0);
    } else {
        items_upto(items, k + 1);
        let more = items.take(k + 1);
        assert(more.subrange(0, k) =~= items.take(k));
        assert(more[k] == items[k]);
        items_ok(items);
        assert(canonical(items[k]) is Ok);
        let before = canonical_items(items.take(k))->Ok_0;
        let last = canonical(items[k])->Ok_0;
        assert(canonical_items(more)->Ok_0 == before + seq![','] + last);
        assert(before + seq![','] + last + item_tail(items, k + 1) =~= before + (seq![','] + (last
            + item_tail(items, k + 1))));
    }
}

proof fn items_front(items: Seq<JsonView>)
    requires
        canonical_items(items) is Ok,
        items.len() > 0,
    ensures
        seq![','] + canonical_items(items)->Ok_0 == item_tail(items, 0),
{
    items_upto(items, 1);
    items_ok(items);
    let one = items.take(1);
    assert(one.subrange(0, 0) =~= Seq::<JsonView>::empty());
    assert(one[0] == items[0]);
    assert(canonical_items(one.subrange(0, 0)) == Ok::<Seq<char>, Seq<char>>(Seq::empty()));
    assert(canonical(items[0]) is Ok);
    assert(canonical_items(one)->Ok_0 =~= canonical(items[0])->Ok_0);
}

/// The texts of the members from `i` on, each behind a comma.
spec fn member_tail(list: Seq<MemberText>, i: int) -> Seq<char>
    decreases list.len() - i,
{
    if i < 0 || i >= list.len() {
        Seq::empty()
    } else {
        seq![','] + (quoted(list[i].0) + (seq![':'] + (list[i].1->Ok_0 + member_tail(list, i + 1))))
    }
}

proof fn members_upto(list: Seq<MemberText>, k: int)
    requires
        joined(list) is Ok,
        1 <= k <= list.len(),
    ensures
        joined(list.take(k)) is Ok,
        joined(list)->Ok_0 == joined(list.take(k))->Ok_0 + member_tail(list, k),
    decreases list.len() - k,
{
    if joined(list.take(k)) is Err {
        joined_error_stays(list, k);
    }
    if k == list.len() {
        assert(list.take(k) =~= list);
        assert(joined(list)->Ok_0 + member_tail(list, k) =~= joined(list)->Ok_0);
    } else {
        members_upto(list, k + 1);
        let more = list.take(k + 1);
        assert(more.drop_last() =~= list.take(k));
        assert(more.last() == list[k]);
        joined_ok(list);
        assert(list[k].1 is Ok);
        let before = joined(list.take(k))->Ok_0;
        let key = quoted(list[k].0);
        let last = list[k].1->Ok_0;
        let rest = member_tail(list, k + 1);
        assert(joined(more)->Ok_0 == before + seq![','] + key + seq![':'] + last);
        assert(before + seq![','] + key + seq![':'] + last + rest =~= before + (seq![','] + (key + (
        seq![':'] + (last + rest)))));
    }
}

proof fn members_front(list: Seq<MemberText>)
    requires
        joined(list) is Ok,
        list.len() > 0,
    ensures
        seq![','] + joined(list)->Ok_0 == member_tail(list, 0),
{
    members_upto(list, 1);
    joined_ok(list);
    let one = list.take(1);
    assert(one.drop_last() =~= Seq::<MemberText>::empty());
    assert(one.last() == list[0]);
    assert(joined(one.drop_last()) == Ok::<Seq<char>, Seq<char>>(Seq::empty()));
    assert(list[0].1 is Ok);
    let key = quoted(list[0].0);
    let first = list[0].1->Ok_0;
    let rest = member_tail(list, 1);
    assert(joined(one)->Ok_0 =~= key + seq![':'] + first);
    assert(key + seq![':'] + first + rest =~= key + (seq![':'] + (first + rest)));
}

/// Each of the texts is that of a member.
spec fn texts_of(list: Seq<MemberText>, members: Seq<(Seq<char>, JsonView)>) -> bool {
    forall|i: int|
        0 <= i < list.len() ==> exists|j: int|
            0 <= j < members.len() && #[trigger] list[i] == (
                (#[trigger] members[j]).0,
                canonical(members[j].1),
            )
}

proof fn sorted_texts(members: Seq<(Seq<char>, JsonView)>)
    ensures
        texts_of(sorted(member_texts(members)), members),
        forall|j: int|
            0 <= j < members.len() ==> sorted(member_texts(members)).contains(
                ((#[trigger] members[j]).0, canonical(members[j].1)),
            ),
        sorted(member_texts(members)).len() == members.len(),
{
    let t = member_texts(members);
    let s = sorted(t);
    member_texts_at(members);
    sorted_members(t);
    assert forall|i: int| 0 <= i < s.len() implies exists|j: int|
        0 <= j < members.len() && #[trigger] s[i] == (
            (#[trigger] members[j]).0,
            canonical(members[j].1),
        ) by {
        assert(s.contains(s[i]));
        assert(t.contains(s[i]));
        let j = choose|j: int| 0 <= j < t.len() && t[j] == s[i];
        assert(t[j] == (members[j].0, canonical(members[j].1)));
    }
    assert forall|j: int| 0 <= j < members.len() implies s.contains(
        ((#[trigger] members[j]).0, canonical(members[j].1)),
    ) by {
        assert(t[j] == (members[j].0, canonical(members[j].1)));
        assert(t.contains(t[j]));
        assert(s.contains(t[j]));
    }
}

proof fn items_read_back(
    p: Seq<JsonView>,
    q: Seq<JsonView>,
    i: int,
    x: Seq<char>,
    y: Seq<char>,
)
    requires
        literals_read_back(),
        forall|k: int| 0 <= k < p.len() ==> canonical(#[trigger] p[k]) is Ok,
        forall|k: int| 0 <= k < q.len() ==> canonical(#[trigger] q[k]) is Ok,
        0 <= i <= p.len(),
        i <= q.len(),
        item_tail(p, i) + (seq![']'] + x) == item_tail(q, i) + (seq![']'] + y),
    ensures
        p.len() == q.len(),
        forall|k: int| i <= k < p.len() ==> same_value(#[trigger] p[k], q[k]),
        item_tail(p, i) == item_tail(q, i),
        x == y,
    decreases p, p.len() - i,
{
    let ex = seq![']'] + x;
    let ey = seq![']'] + y;
    let s = item_tail(p, i) + ex;
    let t = item_tail(q, i) + ey;
    if i == p.len() || i == q.len() {
        if i < q.len() {
            assert(s[0] == ']');
            assert(t[0] == ',');
        }
        if i < p.len() {
            assert(t[0] == ']');
            assert(s[0] == ',');
        }
        assert(s =~= ex);
        assert(t =~= ey);
        same_split(seq![']'], x, seq![']'], y);
    } else {
        let cp = canonical(p[i])->Ok_0;
        let cq = canonical(q[i])->Ok_0;
        let rp = item_tail(p, i + 1) + ex;
        let rq = item_tail(q, i + 1) + ey;
        assert(s =~= seq![','] + (cp + rp));
        assert(t =~= seq![','] + (cq + rq));
        same_split(seq![','], cp + rp, seq![','], cq + rq);
        assert(ends(rp)) by {
            if i + 1 < p.len() {
                assert(rp[0] == ',');
            } else {
                assert(rp =~= ex);
            }
        }
        assert(ends(rq)) by {
            if i + 1 < q.len() {
                assert(rq[0] == ',');
            } else {
                assert(rq =~= ey);
            }
        }
        read_back(p[i], q[i], rp, rq);
        items_read_back(p, q, i + 1, x, y);
    }
}

proof fn members_read_back(
    p: Seq<(Seq<char>, JsonView)>,
    q: Seq<(Seq<char>, JsonView)>,
    lp: Seq<MemberText>,
    lq: Seq<MemberText>,
    i: int,
    x: Seq<char>,
    y: Seq<char>,
)
    requires
        literals_read_back(),
        texts_of(lp, p),
        texts_of(lq, q),
        forall|k: int| 0 <= k < lp.len() ==> (#[trigger] lp[k]).1 is Ok,
        forall|k: int| 0 <= k < lq.len() ==> (#[trigger] lq[k]).1 is Ok,
        0 <= i <= lp.len(),
        i <= lq.len(),
        member_tail(lp, i) + (seq!['}'] + x) == member_tail(lq, i) + (seq!['}'] + y),
    ensures
        lp.len() == lq.len(),
        forall|k: int| i <= k < lp.len() ==> #[trigger] lp[k] == lq[k],
        member_tail(lp, i) == member_tail(lq, i),
        x == y,
    decreases p, lp.len() - i,
{
    let ex = seq!['}'] + x;
    let ey = seq!['}'] + y;
    let s = member_tail(lp, i) + ex;
    let t = member_tail(lq, i) + ey;
    if i == lp.len() || i == lq.len() {
        if i < lq.len() {
            assert(s[0] == '}');
            assert(t[0] == ',');
        }
        if i < lp.len() {
            assert(t[0] == '}');
            assert(s[0] == ',');
        }
        assert(s =~= ex);
        assert(t =~= ey);
        same_split(seq!['}'], x, seq!['}'], y);
    } else {
        let cp = lp[i].1->Ok_0;
        let cq = lq[i].1->Ok_0;
        let rp = member_tail(lp, i + 1) + ex;
        let rq = member_tail(lq, i + 1) + ey;
        let kp = quoted(lp[i].0);
        let kq = quoted(lq[i].0);
        let up = seq![':'] + (cp + rp);
        let uq = seq![':'] + (cq + rq);
        assert(s =~= seq![','] + (kp + up));
        assert(t =~= seq![','] + (kq + uq));
        same_split(seq![','], kp + up, seq![','], kq + uq);
        assert(quoted(lp[i].0) + up == quoted(lq[i].0) + uq);
        same_split(seq![':'], cp + rp, seq![':'], cq + rq);
        assert(ends(rp)) by {
            if i + 1 < lp.len() {
                assert(rp[0] == ',');
            } else {
                assert(rp =~= ex);
            }
        }
        assert(ends(rq)) by {
            if i + 1 < lq.len() {
                assert(rq[0] == ',');
            } else {
                assert(rq =~= ey);
            }
        }
        assert(lp[i].1 is Ok && lq[i].1 is Ok);
        let j = choose|j: int|
            0 <= j < p.len() && lp[i] == ((#[trigger] p[j]).0, canonical(p[j].1));
        let k = choose|k: int|
            0 <= k < q.len() && lq[i] == ((#[trigger] q[k]).0, canonical(q[k].1));
        read_back(p[j].1, q[k].1, rp, rq);
        members_read_back(p, q, lp, lq, i + 1, x, y);
    }
}

proof fn read_back(a: JsonView, b: JsonView, x: Seq<char>, y: Seq<char>)
    requires
        literals_read_back(),
        canonical(a) is Ok,
        canonical(b) is Ok,
        canonical(a)->Ok_0 + x == canonical(b)->Ok_0 + y,
        ends(x),
        ends(y),
    ensures
        same_value(a, b),
        canonical(a) == canonical(b),
        x == y,
    decreases a, 0int,
{
    let ta = canonical(a)->Ok_0;
    let tb = canonical(b)->Ok_0;
    texts_start(a);
    texts_start(b);
    assert((ta + x)[0] == ta[0]);
    assert((tb + y)[0] == tb[0]);
    match a {
        JsonView::Null | JsonView::Bool(_) => {
            assert(a == b);
            same_split(ta, x, tb, y);
        },
        JsonView::Int(n) => {
            let m = b->Int_0;
            if n < 0 {
                let dn = decimal((-n) as nat);
                let dm = decimal((-m) as nat);
                assert(ta + x =~= seq!['-'] + (dn + x));
                assert(tb + y =~= seq!['-'] + (dm + y));
                same_split(seq!['-'], dn + x, seq!['-'], dm + y);
                numbers_read_back((-n) as nat, (-m) as nat, x, y);
            } else {
                numbers_read_back(n as nat, m as nat, x, y);
            }
        },
        JsonView::Str(s) => {
            let t = b->Str_0;
            assert(quoted(s) + x == quoted(t) + y);
        },
        JsonView::Array(p) => {
            let q = b->Array_0;
            arrays_read_back(p, q, x, y);
        },
        JsonView::Object(p) => {
            let q = b->Object_0;
            objects_read_back(p, q, x, y);
        },
        JsonView::Number(_) => {},
    }
}

proof fn arrays_read_back(
    p: Seq<JsonView>,
    q: Seq<JsonView>,
    x: Seq<char>,
    y: Seq<char>,
)
    requires
        literals_read_back(),
        canonical(JsonView::Array(p)) is Ok,
        canonical(JsonView::Array(q)) is Ok,
        canonical(JsonView::Array(p))->Ok_0 + x == canonical(JsonView::Array(q))->Ok_0 + y,
    ensures
        same_value(JsonView::Array(p), JsonView::Array(q)),
        canonical(JsonView::Array(p)) == canonical(JsonView::Array(q)),
        x == y,
    decreases p, p.len() + 1,
{
    let a = JsonView::Array(p);
    let b = JsonView::Array(q);
    let tp = canonical_items(p)->Ok_0;
    let tq = canonical_items(q)->Ok_0;
    let ex = seq![']'] + x;
    let ey = seq![']'] + y;
    items_ok(p);
    items_ok(q);
    assert(canonical(a)->Ok_0 + x =~= seq!['['] + (tp + ex));
    assert(canonical(b)->Ok_0 + y =~= seq!['['] + (tq + ey));
    same_split(seq!['['], tp + ex, seq!['['], tq + ey);
    if p.len() > 0 {
        items_front(p);
        texts_start(p[0]);
        items_upto(p, 1);
        assert(item_tail(p, 0)[1] == tp[0]);
        assert(item_tail(p, 0)[1] == canonical(p[0])->Ok_0[0]);
        assert(seq![','] + (tp + ex) =~= item_tail(p, 0) + ex);
    } else {
        assert(tp + ex =~= ex);
    }
    if q.len() > 0 {
        items_front(q);
        texts_start(q[0]);
        assert(item_tail(q, 0)[1] == tq[0]);
        assert(item_tail(q, 0)[1] == canonical(q[0])->Ok_0[0]);
        assert(seq![','] + (tq + ey) =~= item_tail(q, 0) + ey);
    } else {
        assert(tq + ey =~= ey);
    }
    if p.len() == 0 || q.len() == 0 {
        if p.len() > 0 {
            assert((tp + ex)[0] == tp[0]);
            assert(ey[0] == ']');
        }
        if q.len() > 0 {
            assert((tq + ey)[0] == tq[0]);
            assert(ex[0] == ']');
        }
        same_split(seq![']'], x, seq![']'], y);
        assert(p =~= q);
    } else {
        items_read_back(p, q, 0, x, y);
        assert(tp =~= item_tail(p, 0).subrange(1, item_tail(p, 0).len() as int));
        assert(tq =~= item_tail(q, 0).subrange(1, item_tail(q, 0).len() as int));
    }
}

proof fn member_texts_read_back(
    p: Seq<(Seq<char>, JsonView)>,
    q: Seq<(Seq<char>, JsonView)>,
    x: Seq<char>,
    y: Seq<char>,
)
    requires
        literals_read_back(),
        canonical(JsonView::Object(p)) is Ok,
        canonical(JsonView::Object(q)) is Ok,
        canonical(JsonView::Object(p))->Ok_0 + x == canonical(JsonView::Object(q))->Ok_0 + y,
    ensures
        sorted(member_texts(p)) == sorted(member_texts(q)),
        x == y,
    decreases p, p.len() + 1,
{
    let a = JsonView::Object(p);
    let b = JsonView::Object(q);
    let lp = sorted(member_texts(p));
    let lq = sorted(member_texts(q));
    let tp = joined(lp)->Ok_0;
    let tq = joined(lq)->Ok_0;
    let ex = seq!['}'] + x;
    let ey = seq!['}'] + y;
    sorted_texts(p);
    sorted_texts(q);
    joined_ok(lp);
    joined_ok(lq);
    assert(canonical(a)->Ok_0 + x =~= seq!['{'] + (tp + ex));
    assert(canonical(b)->Ok_0 + y =~= seq!['{'] + (tq + ey));
    same_split(seq!['{'], tp + ex, seq!['{'], tq + ey);
    if lp.len() > 0 {
        members_front(lp);
        assert(quoted(lp[0].0)[0] == '"');
        assert(member_tail(lp, 0)[1] == tp[0]);
        assert(seq![','] + (tp + ex) =~= member_tail(lp, 0) + ex);
    } else {
        assert(tp + ex =~= ex);
    }
    if lq.len() > 0 {
        members_front(lq);
        assert(quoted(lq[0].0)[0] == '"');
        assert(member_tail(lq, 0)[1] == tq[0]);
        assert(seq![','] + (tq + ey) =~= member_tail(lq, 0) + ey);
    } else {
        assert(tq + ey =~= ey);
    }
    if lp.len() == 0 || lq.len() == 0 {
        if lp.len() > 0 {
            assert((tp + ex)[0] == tp[0]);
            assert(ey[0] == '}');
        }
        if lq.len() > 0 {
            assert((tq + ey)[0] == tq[0]);
            assert(ex[0] == '}');
        }
        same_split(seq!['}'], x, seq!['}'], y);
        assert(lp =~= lq);
    } else {
        members_read_back(p, q, lp, lq, 0, x, y);
        assert(lp =~= lq);
    }
}

proof fn partner_of(
    p: Seq<(Seq<char>, JsonView)>,
    q: Seq<(Seq<char>, JsonView)>,
    i: int,
) -> (j: int)
    requires
        literals_read_back(),
        sorted(member_texts(p)) == sorted(member_texts(q)),
        canonical(JsonView::Object(p)) is Ok,
        0 <= i < p.len(),
    ensures
        0 <= j < q.len(),
        p[i].0 == q[j].0,
        same_value(p[i].1, q[j].1),
    decreases p, 1int,
{
    let l = sorted(member_texts(p));
    sorted_texts(p);
    sorted_texts(q);
    joined_ok(l);
    let m = (p[i].0, canonical(p[i].1));
    assert(l.contains(m));
    let k = choose|k: int| 0 <= k < l.len() && l[k] == m;
    let j = choose|j: int| 0 <= j < q.len() && l[k] == ((#[trigger] q[j]).0, canonical(q[j].1));
    assert(l[k].1 is Ok);
    read_back(p[i].1, q[j].1, Seq::empty(), Seq::empty());
    j
}

proof fn objects_read_back(
    p: Seq<(Seq<char>, JsonView)>,
    q: Seq<(Seq<char>, JsonView)>,
    x: Seq<char>,
    y: Seq<char>,
)
    requires
        literals_read_back(),
        canonical(JsonView::Object(p)) is Ok,
        canonical(JsonView::Object(q)) is Ok,
        canonical(JsonView::Object(p))->Ok_0 + x == canonical(JsonView::Object(q))->Ok_0 + y,
    ensures
        same_value(JsonView::Object(p), JsonView::Object(q)),
        canonical(JsonView::Object(p)) == canonical(JsonView::Object(q)),
        x == y,
    decreases p, p.len() + 2,
{
    sorted_texts(p);
    sorted_texts(q);
    member_texts_read_back(p, q, x, y);
    assert forall|i: int| 0 <= i < p.len() implies exists|j: int|
        0 <= j < q.len() && (#[trigger] p[i]).0 == (#[trigger] q[j]).0 && same_value(
            p[i].1,
            q[j].1,
        ) by {
        let j = partner_of(p, q, i);
        assert(p[i].0 == q[j].0);
    }
}

/// The canonical text tells values apart: as long as string literals can be
/// read back, two values with the same canonical text are the same value, but
/// for the order in which objects list their members.
pub proof fn canonical_text_tells_values_apart(a: JsonView, b: JsonView)
    ensures
        literals_read_back() && canonical(a) is Ok && canonical(a) == canonical(b) ==> same_value(
            a,
            b,
        ),
{
    if literals_read_back() && canonical(a) is Ok && canonical(a) == canonical(b) {
        read_back(a, b, Seq::empty(), Seq::empty());
    }
}

} // verus!
