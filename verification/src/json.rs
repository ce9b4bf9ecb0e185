//! JSON values and their texts.
//!
//! A value has two texts. The plain one keeps the members of an object in the
//! order in which they stand. The canonical one sorts them by key and admits no
//! number that is not an integer, so that equal values have equal digests.

use crate::ordered::ascending_keys;
use crate::text::{
    decimal_int, i64_text, str_lt, text_lt, text_lt_asymmetric, text_lt_irreflexive, text_lt_total,
    text_lt_transitive, u64_text,
};
use vstd::prelude::*;

verus! {

/// A JSON value.
#[derive(Debug, PartialEq, Eq)]
pub enum Json {
    Null,
    Bool(bool),
    /// An integer that fits in 64 bits with a sign.
    Int(i64),
    /// An integer that fits in 64 bits without a sign.
    UInt(u64),
    /// A number that is not an integer, as its text.
    Number(String),
    Str(String),
    Array(Vec<Json>),
    Object(Vec<(String, Json)>),
}

/// The model of a `Json`.
pub enum JsonView {
    Null,
    Bool(bool),
    Int(int),
    Number(Seq<char>),
    Str(Seq<char>),
    Array(Seq<JsonView>),
    Object(Seq<(Seq<char>, JsonView)>),
}

impl Json {
    /// The model of the value.
    pub open spec fn model(self) -> JsonView
        decreases self,
    {
        match self {
            Json::Null => JsonView::Null,
            Json::Bool(b) => JsonView::Bool(b),
            Json::Int(n) => JsonView::Int(n as int),
            Json::UInt(n) => JsonView::Int(n as int),
            Json::Number(t) => JsonView::Number(t@),
            Json::Str(s) => JsonView::Str(s@),
            Json::Array(v) => JsonView::Array(
                Seq::new(
                    v@.len(),
                    |i: int|
                        if 0 <= i < v@.len() {
                            v@[i].model()
                        } else {
                            JsonView::Null
                        },
                ),
            ),
            Json::Object(m) => JsonView::Object(
                Seq::new(
                    m@.len(),
                    |i: int|
                        if 0 <= i < m@.len() {
                            (m@[i].0@, m@[i].1.model())
                        } else {
                            (Seq::<char>::empty(), JsonView::Null)
                        },
                ),
            ),
        }
    }
}

impl View for Json {
    type V = JsonView;

    open spec fn view(&self) -> JsonView {
        self.model()
    }
}

/// The JSON string literal that writes `s`.
pub uninterp spec fn quoted(s: Seq<char>) -> Seq<char>;

/// `serde_json::to_string` of a string, which cannot fail: the quoted and
/// escaped text depends on `s` alone.
#[verifier::external_body]
pub(crate) fn quote(s: &str) -> (r: String)
    ensures
        r@ == quoted(s@),
{
    serde_json::to_string(s).expect("a string always encodes")
}

/// The plain text of a value.
pub open spec fn plain(v: JsonView) -> Seq<char>
    decreases v,
{
    match v {
        JsonView::Null => "null"@,
        JsonView::Bool(b) => if b {
            "true"@
        } else {
            "false"@
        },
        JsonView::Int(n) => decimal_int(n),
        JsonView::Number(t) => t,
        JsonView::Str(s) => quoted(s),
        JsonView::Array(items) => seq!['['] + plain_items(items) + seq![']'],
        JsonView::Object(members) => seq!['{'] + plain_members(members) + seq!['}'],
    }
}

/// The plain texts of `items`, with commas between them.
pub open spec fn plain_items(items: Seq<JsonView>) -> Seq<char>
    decreases items,
{
    if items.len() == 0 {
        Seq::empty()
    } else {
        let head = items.subrange(0, items.len() - 1);
        let sep = if head.len() == 0 {
            Seq::<char>::empty()
        } else {
            seq![',']
        };
        plain_items(head) + sep + plain(items[items.len() - 1])
    }
}

/// The plain texts of `members`, with commas between them.
pub open spec fn plain_members(members: Seq<(Seq<char>, JsonView)>) -> Seq<char>
    decreases members,
{
    if members.len() == 0 {
        Seq::empty()
    } else {
        let head = members.subrange(0, members.len() - 1);
        let last = members[members.len() - 1];
        let sep = if head.len() == 0 {
            Seq::<char>::empty()
        } else {
            seq![',']
        };
        plain_members(head) + sep + quoted(last.0) + seq![':'] + plain(last.1)
    }
}

/// The canonical text of a value, or the first number in it that is not an
/// integer.
pub open spec fn canonical(v: JsonView) -> Result<Seq<char>, Seq<char>>
    decreases v,
{
    match v {
        JsonView::Null => Ok("null"@),
        JsonView::Bool(b) => Ok(
            if b {
                "true"@
            } else {
                "false"@
            },
        ),
        JsonView::Int(n) => Ok(decimal_int(n)),
        JsonView::Number(t) => Err(t),
        JsonView::Str(s) => Ok(quoted(s)),
        JsonView::Array(items) => match canonical_items(items) {
            Ok(t) => Ok(seq!['['] + t + seq![']']),
            Err(e) => Err(e),
        },
        JsonView::Object(members) => match joined(sorted(member_texts(members))) {
            Ok(t) => Ok(seq!['{'] + t + seq!['}']),
            Err(e) => Err(e),
        },
    }
}

/// The canonical texts of `items`, with commas between them.
pub open spec fn canonical_items(items: Seq<JsonView>) -> Result<Seq<char>, Seq<char>>
    decreases items,
{
    if items.len() == 0 {
        Ok(Seq::empty())
    } else {
        let head = items.subrange(0, items.len() - 1);
        match canonical_items(head) {
            Err(e) => Err(e),
            Ok(t) => match canonical(items[items.len() - 1]) {
                Err(e) => Err(e),
                Ok(last) => {
                    let sep = if head.len() == 0 {
                        Seq::<char>::empty()
                    } else {
                        seq![',']
                    };
                    Ok(t + sep + last)
                },
            },
        }
    }
}

/// A member's key and the canonical text of its value.
pub type MemberText = (Seq<char>, Result<Seq<char>, Seq<char>>);

/// The keys of `members`, each with the canonical text of its value.
pub open spec fn member_texts(members: Seq<(Seq<char>, JsonView)>) -> Seq<MemberText>
    decreases members,
{
    if members.len() == 0 {
        Seq::empty()
    } else {
        let last = members[members.len() - 1];
        member_texts(members.subrange(0, members.len() - 1)).push((last.0, canonical(last.1)))
    }
}

/// Puts a member behind those with smaller or equal keys.
pub open spec fn placed(list: Seq<MemberText>, m: MemberText) -> Seq<MemberText>
    decreases list.len(),
{
    if list.len() > 0 && text_lt(m.0, list.last().0) {
        placed(list.drop_last(), m).push(list.last())
    } else {
        list.push(m)
    }
}

/// The members in ascending order of their keys.
pub open spec fn sorted(list: Seq<MemberText>) -> Seq<MemberText>
    decreases list.len(),
{
    if list.len() == 0 {
        list
    } else {
        placed(sorted(list.drop_last()), list.last())
    }
}

/// The members as text, with commas between them.
pub open spec fn joined(list: Seq<MemberText>) -> Result<Seq<char>, Seq<char>>
    decreases list.len(),
{
    if list.len() == 0 {
        Ok(Seq::empty())
    } else {
        let head = list.drop_last();
        match joined(head) {
            Err(e) => Err(e),
            Ok(t) => match list.last().1 {
                Err(e) => Err(e),
                Ok(last) => {
                    let sep = if head.len() == 0 {
                        Seq::<char>::empty()
                    } else {
                        seq![',']
                    };
                    Ok(t + sep + quoted(list.last().0) + seq![':'] + last)
                },
            },
        }
    }
}

/// The model of a canonical text.
pub open spec fn canonical_view(r: Result<String, String>) -> Result<Seq<char>, Seq<char>> {
    match r {
        Ok(t) => Ok(t@),
        Err(e) => Err(e@),
    }
}

/// The model of a list of keys with canonical texts.
spec fn member_views(v: Seq<(String, Result<String, String>)>) -> Seq<MemberText> {
    v.map_values(|m: (String, Result<String, String>)| (m.0@, canonical_view(m.1)))
}

/// A member goes to the first position behind which every key is greater.
proof fn placed_is_insert(list: Seq<MemberText>, m: MemberText, pos: int)
    requires
        0 <= pos <= list.len(),
        forall|i: int| pos <= i < list.len() ==> text_lt(m.0, (#[trigger] list[i]).0),
        pos > 0 ==> !text_lt(m.0, list[pos - 1].0),
    ensures
        placed(list, m) == list.insert(pos, m),
    decreases list.len(),
{
    if list.len() > 0 && text_lt(m.0, list.last().0) {
        assert(pos < list.len()) by {
            if pos == list.len() {
                assert(list[pos - 1] == list.last());
            }
        }
        let head = list.drop_last();
        assert forall|i: int| pos <= i < head.len() implies text_lt(m.0, (#[trigger] head[i]).0) by {
            assert(head[i] == list[i]);
        }
        placed_is_insert(head, m, pos);
        assert(head.insert(pos, m).push(list.last()) =~= list.insert(pos, m));
    } else {
        assert(pos == list.len()) by {
            if pos < list.len() {
                assert(text_lt(m.0, list[list.len() - 1].0));
            }
        }
        assert(list.push(m) =~= list.insert(pos, m));
    }
}

fn place(list: &mut Vec<(String, Result<String, String>)>, key: String, text: Result<String, String>)
    ensures
        member_views(final(list)@) == placed(
            member_views(old(list)@),
            (key@, canonical_view(text)),
        ),
{
    let ghost before = member_views(list@);
    let ghost m = (key@, canonical_view(text));
    let mut pos: usize = list.len();
    while pos > 0 && str_lt(key.as_str(), list[pos - 1].0.as_str())
        invariant
            pos <= list@.len(),
            before == member_views(list@),
            list@ == old(list)@,
            forall|i: int| pos <= i < before.len() ==> text_lt(key@, (#[trigger] before[i]).0),
        decreases pos,
    {
        proof {
            assert(before[pos - 1].0 == list@[pos - 1].0@);
        }
        pos -= 1;
    }
    proof {
        if pos > 0 {
            assert(before[pos - 1].0 == list@[pos - 1].0@);
        }
        placed_is_insert(before, m, pos as int);
    }
    list.insert(pos, (key, text));
    proof {
        assert(member_views(list@) =~= before.insert(pos as int, m));
    }
}

fn join_members(list: &Vec<(String, Result<String, String>)>) -> (r: Result<String, String>)
    ensures
        canonical_view(r) == joined(member_views(list@)),
{
    let ghost v = member_views(list@);
    let mut out = String::new();
    let mut i: usize = 0;
    proof {
        assert(v.take(0) =~= Seq::<MemberText>::empty());
    }
    while i < list.len()
        invariant
            i <= list@.len(),
            v == member_views(list@),
            joined(v.take(i as int)) == Ok::<Seq<char>, Seq<char>>(out@),
        decreases list@.len() - i,
    {
        proof {
            assert(v.take(i + 1).drop_last() =~= v.take(i as int));
            assert(v.take(i + 1).last() == v[i as int]);
        }
        match &list[i].1 {
            Err(e) => {
                proof {
                    joined_error_stays(v, i + 1);
                }
                return Err(e.clone());
            },
            Ok(t) => {
                let ghost before = out@;
                if i > 0 {
                    out.push(',');
                }
                out.append(quote(list[i].0.as_str()).as_str());
                out.push(':');
                out.append(t.as_str());
                proof {
                    let sep = if i == 0 {
                        Seq::<char>::empty()
                    } else {
                        seq![',']
                    };
                    assert(out@ =~= before + sep + quoted(v[i as int].0) + seq![':'] + t@);
                }
            },
        }
        i += 1;
    }
    proof {
        assert(v.take(v.len() as int) =~= v);
    }
    Ok(out)
}

pub(crate) proof fn joined_error_stays(v: Seq<MemberText>, k: int)
    requires
        0 <= k <= v.len(),
        joined(v.take(k)) is Err,
    ensures
        joined(v) == joined(v.take(k)),
    decreases v.len() - k,
{
    if k < v.len() {
        assert(v.take(k + 1).drop_last() =~= v.take(k));
        joined_error_stays(v, k + 1);
    } else {
        assert(v.take(k) =~= v);
    }
}

pub(crate) proof fn items_error_stays(v: Seq<JsonView>, k: int)
    requires
        0 <= k <= v.len(),
        canonical_items(v.take(k)) is Err,
    ensures
        canonical_items(v) == canonical_items(v.take(k)),
    decreases v.len() - k,
{
    if k < v.len() {
        assert(v.take(k + 1).subrange(0, k) =~= v.take(k));
        items_error_stays(v, k + 1);
    } else {
        assert(v.take(k) =~= v);
    }
}

impl Json {
    /// The plain text.
    pub fn to_text(&self) -> (r: String)
        ensures
            r@ == plain(self@),
        decreases self,
    {
        match self {
            Json::Null => "null".to_owned(),
            Json::Bool(b) => {
                if *b {
                    "true".to_owned()
                } else {
                    "false".to_owned()
                }
            },
            Json::Int(n) => i64_text(*n),
            Json::UInt(n) => u64_text(*n),
            Json::Number(t) => t.clone(),
            Json::Str(s) => quote(s.as_str()),
            Json::Array(v) => {
                let ghost items = self@->Array_0;
                let mut out = String::new();
                out.push('[');
                let mut i: usize = 0;
                proof {
                    assert(items.subrange(0, 0) =~= Seq::<JsonView>::empty());
                    assert(out@ =~= seq!['['] + plain_items(items.subrange(0, 0)));
                }
                while i < v.len()
                    invariant
                        self matches Json::Array(w) && w == v,
                        items == self@->Array_0,
                        items.len() == v@.len(),
                        i <= v@.len(),
                        out@ == seq!['['] + plain_items(items.subrange(0, i as int)),
                    decreases v@.len() - i,
                {
                    if i > 0 {
                        out.push(',');
                    }
                    out.append(v[i].to_text().as_str());
                    proof {
                        let next = items.subrange(0, i + 1);
                        assert(next.subrange(0, i as int) =~= items.subrange(0, i as int));
                        assert(next[i as int] == v@[i as int]@);
                        assert(out@ =~= seq!['['] + plain_items(next));
                    }
                    i += 1;
                }
                out.push(']');
                proof {
                    assert(items.subrange(0, items.len() as int) =~= items);
                    assert(out@ =~= seq!['['] + plain_items(items) + seq![']']);
                }
                out
            },
            Json::Object(m) => {
                let ghost members = self@->Object_0;
                let mut out = String::new();
                out.push('{');
                let mut i: usize = 0;
                proof {
                    assert(members.subrange(0, 0) =~= Seq::<(Seq<char>, JsonView)>::empty());
                    assert(out@ =~= seq!['{'] + plain_members(members.subrange(0, 0)));
                }
                while i < m.len()
                    invariant
                        self matches Json::Object(w) && w == m,
                        members == self@->Object_0,
                        members.len() == m@.len(),
                        i <= m@.len(),
                        out@ == seq!['{'] + plain_members(members.subrange(0, i as int)),
                    decreases m@.len() - i,
                {
                    if i > 0 {
                        out.push(',');
                    }
                    out.append(quote(m[i].0.as_str()).as_str());
                    out.push(':');
                    out.append(m[i].1.to_text().as_str());
                    proof {
                        let next = members.subrange(0, i + 1);
                        assert(next.subrange(0, i as int) =~= members.subrange(0, i as int));
                        assert(next[i as int] == (m@[i as int].0@, m@[i as int].1@));
                        assert(out@ =~= seq!['{'] + plain_members(next));
                    }
                    i += 1;
                }
                out.push('}');
                proof {
                    assert(members.subrange(0, members.len() as int) =~= members);
                    assert(out@ =~= seq!['{'] + plain_members(members) + seq!['}']);
                }
                out
            },
        }
    }

    /// The canonical text, or the first number that is not an integer.
    pub fn canonical_text(&self) -> (r: Result<String, String>)
        ensures
            canonical_view(r) == canonical(self@),
        decreases self,
    {
        match self {
            Json::Null => Ok("null".to_owned()),
            Json::Bool(b) => {
                if *b {
                    Ok("true".to_owned())
                } else {
                    Ok("false".to_owned())
                }
            },
            Json::Int(n) => Ok(i64_text(*n)),
            Json::UInt(n) => Ok(u64_text(*n)),
            Json::Number(t) => Err(t.clone()),
            Json::Str(s) => Ok(quote(s.as_str())),
            Json::Array(v) => {
                let ghost items = self@->Array_0;
                let mut out = String::new();
                let mut i: usize = 0;
                proof {
                    assert(items.take(0) =~= Seq::<JsonView>::empty());
                }
                while i < v.len()
                    invariant
                        self matches Json::Array(w) && w == v,
                        items == self@->Array_0,
                        items.len() == v@.len(),
                        i <= v@.len(),
                        canonical_items(items.take(i as int)) == Ok::<Seq<char>, Seq<char>>(out@),
                    decreases v@.len() - i,
                {
                    proof {
                        let next = items.take(i + 1);
                        assert(next.subrange(0, i as int) =~= items.take(i as int));
                        assert(next[i as int] == v@[i as int]@);
                    }
                    match v[i].canonical_text() {
                        Err(e) => {
                            proof {
                                items_error_stays(items, i + 1);
                            }
                            return Err(e);
                        },
                        Ok(t) => {
                            let ghost before = out@;
                            if i > 0 {
                                out.push(',');
                            }
                            out.append(t.as_str());
                            proof {
                                let sep = if i == 0 {
                                    Seq::<char>::empty()
                                } else {
                                    seq![',']
                                };
                                assert(out@ =~= before + sep + t@);
                            }
                        },
                    }
                    i += 1;
                }
                proof {
                    assert(items.take(items.len() as int) =~= items);
                }
                let mut whole = String::new();
                whole.push('[');
                whole.append(out.as_str());
                whole.push(']');
                proof {
                    assert(whole@ =~= seq!['['] + out@ + seq![']']);
                }
                Ok(whole)
            },
            Json::Object(m) => {
                let ghost members = self@->Object_0;
                let mut list: Vec<(String, Result<String, String>)> = Vec::new();
                let mut i: usize = 0;
                proof {
                    assert(members.take(0) =~= Seq::<(Seq<char>, JsonView)>::empty());
                    assert(member_views(list@) =~= sorted(member_texts(members.take(0))));
                }
                while i < m.len()
                    invariant
                        self matches Json::Object(w) && w == m,
                        members == self@->Object_0,
                        members.len() == m@.len(),
                        i <= m@.len(),
                        member_views(list@) == sorted(member_texts(members.take(i as int))),
                    decreases m@.len() - i,
                {
                    proof {
                        let next = members.take(i + 1);
                        assert(next.subrange(0, i as int) =~= members.take(i as int));
                        assert(next[i as int] == (m@[i as int].0@, m@[i as int].1@));
                        let t = member_texts(next);
                        assert(t.drop_last() =~= member_texts(members.take(i as int)));
                    }
                    let t = m[i].1.canonical_text();
                    place(&mut list, m[i].0.clone(), t);
                    i += 1;
                }
                proof {
                    assert(members.take(members.len() as int) =~= members);
                }
                match join_members(&list) {
                    Err(e) => Err(e),
                    Ok(t) => {
                        let mut whole = String::new();
                        whole.push('{');
                        whole.append(t.as_str());
                        whole.push('}');
                        proof {
                            assert(whole@ =~= seq!['{'] + t@ + seq!['}']);
                        }
                        Ok(whole)
                    },
                }
            },
        }
    }
}

/// No number in the value is anything but an integer.
pub open spec fn integral(v: JsonView) -> bool
    decreases v,
{
    match v {
        JsonView::Number(_) => false,
        JsonView::Array(items) => forall|i: int| 0 <= i < items.len() ==> integral(#[trigger] items[i]),
        JsonView::Object(members) => forall|i: int|
            0 <= i < members.len() ==> integral((#[trigger] members[i]).1),
        _ => true,
    }
}

/// Every object in the value lists its members by ascending key, each once.
pub open spec fn keys_ascend(v: JsonView) -> bool
    decreases v,
{
    match v {
        JsonView::Array(items) => forall|i: int|
            0 <= i < items.len() ==> keys_ascend(#[trigger] items[i]),
        JsonView::Object(members) => ascending_keys(members) && forall|i: int|
            0 <= i < members.len() ==> keys_ascend((#[trigger] members[i]).1),
        _ => true,
    }
}

impl Json {
    /// Whether every number in the value is an integer.
    pub fn all_numbers_integral(&self) -> (r: bool)
        ensures
            r == integral(self@),
        decreases self,
    {
        match self {
            Json::Number(_) => false,
            Json::Array(v) => {
                let ghost items = self@->Array_0;
                let mut i: usize = 0;
                while i < v.len()
                    invariant
                        self matches Json::Array(w) && w == v,
                        items == self@->Array_0,
                        items.len() == v@.len(),
                        i <= v@.len(),
                        forall|k: int| 0 <= k < i ==> integral(#[trigger] items[k]),
                    decreases v@.len() - i,
                {
                    proof {
                        assert(items[i as int] == v@[i as int]@);
                    }
                    if !v[i].all_numbers_integral() {
                        return false;
                    }
                    i += 1;
                }
                true
            },
            Json::Object(m) => {
                let ghost members = self@->Object_0;
                let mut i: usize = 0;
                while i < m.len()
                    invariant
                        self matches Json::Object(w) && w == m,
                        members == self@->Object_0,
                        members.len() == m@.len(),
                        i <= m@.len(),
                        forall|k: int| 0 <= k < i ==> integral((#[trigger] members[k]).1),
                    decreases m@.len() - i,
                {
                    proof {
                        assert(members[i as int].1 == m@[i as int].1@);
                    }
                    if !m[i].1.all_numbers_integral() {
                        return false;
                    }
                    i += 1;
                }
                true
            },
            _ => true,
        }
    }
}

pub(crate) proof fn member_texts_at(members: Seq<(Seq<char>, JsonView)>)
    ensures
        member_texts(members).len() == members.len(),
        forall|i: int|
            0 <= i < members.len() ==> #[trigger] member_texts(members)[i] == (
                members[i].0,
                canonical(members[i].1),
            ),
    decreases members.len(),
{
    if members.len() > 0 {
        let head = members.subrange(0, members.len() - 1);
        member_texts_at(head);
        assert forall|i: int| 0 <= i < members.len() implies #[trigger] member_texts(members)[i]
            == (members[i].0, canonical(members[i].1)) by {
            if i < head.len() {
                assert(member_texts(head)[i] == (head[i].0, canonical(head[i].1)));
            }
        }
    }
}

proof fn placed_members(list: Seq<MemberText>, m: MemberText)
    ensures
        forall|x: MemberText| #[trigger]
            placed(list, m).contains(x) <==> list.contains(x) || x == m,
        placed(list, m).len() == list.len() + 1,
    decreases list.len(),
{
    if list.len() > 0 && text_lt(m.0, list.last().0) {
        let head = list.drop_last();
        placed_members(head, m);
        let p = placed(head, m);
        assert forall|x: MemberText| #[trigger]
            placed(list, m).contains(x) <==> list.contains(x) || x == m by {
            let q = p.push(list.last());
            if q.contains(x) {
                let i = choose|i: int| 0 <= i < q.len() && q[i] == x;
                if i < p.len() {
                    assert(p[i] == x);
                    assert(p.contains(x));
                    if head.contains(x) {
                        let k = choose|k: int| 0 <= k < head.len() && head[k] == x;
                        assert(list[k] == x);
                    }
                } else {
                    assert(list[list.len() - 1] == x);
                }
            }
            if list.contains(x) {
                let i = choose|i: int| 0 <= i < list.len() && list[i] == x;
                if i < head.len() {
                    assert(head[i] == x);
                    assert(p.contains(x));
                    let k = choose|k: int| 0 <= k < p.len() && p[k] == x;
                    assert(q[k] == x);
                } else {
                    assert(q[p.len() as int] == x);
                }
            }
            if x == m {
                assert(p.contains(m));
                let k = choose|k: int| 0 <= k < p.len() && p[k] == m;
                assert(q[k] == m);
            }
        }
    } else {
        let q = list.push(m);
        assert forall|x: MemberText| #[trigger]
            placed(list, m).contains(x) <==> list.contains(x) || x == m by {
            if list.contains(x) {
                let i = choose|i: int| 0 <= i < list.len() && list[i] == x;
                assert(q[i] == x);
            }
            assert(q[list.len() as int] == m);
            if q.contains(x) && x != m {
                let i = choose|i: int| 0 <= i < q.len() && q[i] == x;
                assert(list[i] == x);
            }
        }
    }
}

/// Sorting keeps the members.
pub(crate) proof fn sorted_members(list: Seq<MemberText>)
    ensures
        forall|x: MemberText| #[trigger] sorted(list).contains(x) <==> list.contains(x),
        sorted(list).len() == list.len(),
    decreases list.len(),
{
    if list.len() > 0 {
        let head = list.drop_last();
        sorted_members(head);
        placed_members(sorted(head), list.last());
        assert forall|x: MemberText| #[trigger] sorted(list).contains(x) <==> list.contains(x) by {
            if head.contains(x) {
                let i = choose|i: int| 0 <= i < head.len() && head[i] == x;
                assert(list[i] == x);
            }
            if list.contains(x) && x != list.last() {
                let i = choose|i: int| 0 <= i < list.len() && list[i] == x;
                assert(head[i] == x);
            }
            if x == list.last() {
                assert(list[list.len() - 1] == x);
            }
        }
    }
}

pub(crate) proof fn joined_ok(list: Seq<MemberText>)
    ensures
        joined(list) is Ok <==> forall|i: int|
            0 <= i < list.len() ==> (#[trigger] list[i]).1 is Ok,
    decreases list.len(),
{
    if list.len() > 0 {
        let head = list.drop_last();
        joined_ok(head);
        if joined(list) is Ok {
            assert forall|i: int| 0 <= i < list.len() implies (#[trigger] list[i]).1 is Ok by {
                if i < head.len() {
                    assert(head[i].1 is Ok);
                }
            }
        }
        if forall|i: int| 0 <= i < list.len() ==> (#[trigger] list[i]).1 is Ok {
            assert forall|i: int| 0 <= i < head.len() implies (#[trigger] head[i]).1 is Ok by {
                assert(list[i].1 is Ok);
            }
            assert(list[list.len() - 1].1 is Ok);
        }
    }
}

/// A value has a canonical text exactly when its numbers are integers.
pub proof fn canonical_iff_integral(v: JsonView)
    ensures
        canonical(v) is Ok <==> integral(v),
    decreases v,
{
    match v {
        JsonView::Array(items) => {
            assert forall|i: int| 0 <= i < items.len() implies (canonical(#[trigger] items[i]) is Ok
                <==> integral(items[i])) by {
                canonical_iff_integral(items[i]);
            }
            items_ok(items);
        },
        JsonView::Object(members) => {
            assert forall|i: int| 0 <= i < members.len() implies (canonical(
                (#[trigger] members[i]).1,
            ) is Ok <==> integral(members[i].1)) by {
                canonical_iff_integral(members[i].1);
            }
            let t = member_texts(members);
            member_texts_at(members);
            sorted_members(t);
            joined_ok(sorted(t));
            let st = sorted(t);
            if forall|i: int| 0 <= i < st.len() ==> (#[trigger] st[i]).1 is Ok {
                assert forall|i: int| 0 <= i < members.len() implies integral(
                    (#[trigger] members[i]).1,
                ) by {
                    assert(t[i] == (members[i].0, canonical(members[i].1)));
                    assert(t.contains(t[i]));
                    assert(st.contains(t[i]));
                    let k = choose|k: int| 0 <= k < st.len() && st[k] == t[i];
                    assert(st[k].1 is Ok);
                }
            }
            if integral(v) {
                assert forall|i: int| 0 <= i < st.len() implies (#[trigger] st[i]).1 is Ok by {
                    assert(st.contains(st[i]));
                    assert(t.contains(st[i]));
                    let k = choose|k: int| 0 <= k < t.len() && t[k] == st[i];
                    assert(t[k] == (members[k].0, canonical(members[k].1)));
                }
            }
        },
        _ => {},
    }
}

pub(crate) proof fn items_ok(items: Seq<JsonView>)
    ensures
        canonical_items(items) is Ok <==> forall|i: int|
            0 <= i < items.len() ==> canonical(#[trigger] items[i]) is Ok,
    decreases items.len(),
{
    if items.len() > 0 {
        let head = items.subrange(0, items.len() - 1);
        items_ok(head);
        if canonical_items(items) is Ok {
            assert forall|i: int| 0 <= i < items.len() implies canonical(#[trigger] items[i]) is Ok by {
                if i < head.len() {
                    assert(canonical(head[i]) is Ok);
                }
            }
        }
        if forall|i: int| 0 <= i < items.len() ==> canonical(#[trigger] items[i]) is Ok {
            assert forall|i: int| 0 <= i < head.len() implies canonical(#[trigger] head[i]) is Ok by {
                assert(canonical(items[i]) is Ok);
            }
        }
    }
}

spec fn ascending(list: Seq<MemberText>) -> bool {
    forall|i: int, j: int|
        #![trigger list[i], list[j]]
        0 <= i < j < list.len() ==> text_lt(list[i].0, list[j].0)
}

proof fn placed_ascending(list: Seq<MemberText>, m: MemberText)
    requires
        ascending(list),
        forall|i: int| 0 <= i < list.len() ==> (#[trigger] list[i]).0 != m.0,
    ensures
        ascending(placed(list, m)),
    decreases list.len(),
{
    if list.len() > 0 && text_lt(m.0, list.last().0) {
        let head = list.drop_last();
        assert(ascending(head)) by {
            assert forall|i: int, j: int|
                #![trigger head[i], head[j]]
                0 <= i < j < head.len() implies text_lt(head[i].0, head[j].0) by {
                assert(text_lt(list[i].0, list[j].0));
            }
        }
        assert forall|i: int| 0 <= i < head.len() implies (#[trigger] head[i]).0 != m.0 by {
            assert(list[i].0 != m.0);
        }
        placed_ascending(head, m);
        placed_members(head, m);
        let p = placed(head, m);
        let q = p.push(list.last());
        assert forall|i: int, j: int|
            #![trigger q[i], q[j]]
            0 <= i < j < q.len() implies text_lt(q[i].0, q[j].0) by {
            if j < p.len() {
                assert(text_lt(p[i].0, p[j].0));
            } else {
                assert(p.contains(p[i]));
                if head.contains(p[i]) {
                    let k = choose|k: int| 0 <= k < head.len() && head[k] == p[i];
                    assert(text_lt(list[k].0, list[list.len() - 1].0));
                }
            }
        }
    } else {
        let q = list.push(m);
        assert forall|i: int, j: int|
            #![trigger q[i], q[j]]
            0 <= i < j < q.len() implies text_lt(q[i].0, q[j].0) by {
            if j < list.len() {
                assert(text_lt(list[i].0, list[j].0));
            } else {
                assert(list[list.len() - 1].0 != m.0);
                text_lt_total(m.0, list.last().0);
                if i < list.len() - 1 {
                    assert(text_lt(list[i].0, list[list.len() - 1].0));
                    text_lt_transitive(list[i].0, list.last().0, m.0);
                }
            }
        }
    }
}

spec fn distinct_keys(list: Seq<MemberText>) -> bool {
    forall|i: int, j: int|
        #![trigger list[i], list[j]]
        0 <= i < j < list.len() ==> list[i].0 != list[j].0
}

proof fn sorted_ascending(list: Seq<MemberText>)
    requires
        distinct_keys(list),
    ensures
        ascending(sorted(list)),
    decreases list.len(),
{
    if list.len() > 0 {
        let head = list.drop_last();
        assert(distinct_keys(head)) by {
            assert forall|i: int, j: int|
                #![trigger head[i], head[j]]
                0 <= i < j < head.len() implies head[i].0 != head[j].0 by {
                assert(list[i].0 != list[j].0);
            }
        }
        sorted_ascending(head);
        sorted_members(head);
        let sh = sorted(head);
        assert forall|i: int| 0 <= i < sh.len() implies (#[trigger] sh[i]).0 != list.last().0 by {
            assert(sh.contains(sh[i]));
            assert(head.contains(sh[i]));
            let k = choose|k: int| 0 <= k < head.len() && head[k] == sh[i];
            assert(list[k].0 != list[list.len() - 1].0);
        }
        placed_ascending(sh, list.last());
    }
}

proof fn ascending_unique(a: Seq<MemberText>, b: Seq<MemberText>)
    requires
        ascending(a),
        ascending(b),
        forall|x: MemberText| #[trigger] a.contains(x) <==> b.contains(x),
    ensures
        a == b,
    decreases a.len(),
{
    if a.len() == 0 {
        if b.len() > 0 {
            assert(b.contains(b[0]));
            assert(a.contains(b[0]));
        }
        assert(a =~= b);
    } else {
        assert(a.contains(a.last()));
        assert(b.contains(a.last()));
        assert(b.contains(b.last()));
        assert(a.contains(b.last()));
        let i = choose|i: int| 0 <= i < b.len() && b[i] == a.last();
        let j = choose|j: int| 0 <= j < a.len() && a[j] == b.last();
        if a.last() != b.last() {
            assert(text_lt(b[i].0, b[b.len() - 1].0));
            assert(text_lt(a[j].0, a[a.len() - 1].0));
            text_lt_asymmetric(a.last().0, b.last().0);
        }
        let a1 = a.drop_last();
        let b1 = b.drop_last();
        assert forall|x: MemberText| #[trigger] a1.contains(x) <==> b1.contains(x) by {
            text_lt_irreflexive(x.0);
            if a1.contains(x) {
                let k = choose|k: int| 0 <= k < a1.len() && a1[k] == x;
                assert(a[k] == x);
                assert(text_lt(a[k].0, a[a.len() - 1].0));
                assert(a.contains(x));
                assert(b.contains(x));
                let m = choose|m: int| 0 <= m < b.len() && b[m] == x;
                assert(b1[m] == x);
            }
            if b1.contains(x) {
                let k = choose|k: int| 0 <= k < b1.len() && b1[k] == x;
                assert(b[k] == x);
                assert(text_lt(b[k].0, b[b.len() - 1].0));
                assert(b.contains(x));
                assert(a.contains(x));
                let m = choose|m: int| 0 <= m < a.len() && a[m] == x;
                assert(a1[m] == x);
            }
        }
        assert(ascending(a1)) by {
            assert forall|x: int, y: int|
                #![trigger a1[x], a1[y]]
                0 <= x < y < a1.len() implies text_lt(a1[x].0, a1[y].0) by {
                assert(text_lt(a[x].0, a[y].0));
            }
        }
        assert(ascending(b1)) by {
            assert forall|x: int, y: int|
                #![trigger b1[x], b1[y]]
                0 <= x < y < b1.len() implies text_lt(b1[x].0, b1[y].0) by {
                assert(text_lt(b[x].0, b[y].0));
            }
        }
        ascending_unique(a1, b1);
        assert(a =~= a1.push(a.last()));
        assert(b =~= b1.push(b.last()));
    }
}

/// No key occurs twice.
pub open spec fn unique_keys(members: Seq<(Seq<char>, JsonView)>) -> bool {
    forall|i: int, j: int|
        #![trigger members[i], members[j]]
        0 <= i < j < members.len() ==> members[i].0 != members[j].0
}

/// The canonical text of an object does not depend on the order in which its
/// members stand.
pub proof fn canonical_ignores_member_order(
    a: Seq<(Seq<char>, JsonView)>,
    b: Seq<(Seq<char>, JsonView)>,
)
    requires
        unique_keys(a),
        unique_keys(b),
        forall|m: (Seq<char>, JsonView)| #[trigger] a.contains(m) <==> b.contains(m),
    ensures
        canonical(JsonView::Object(a)) == canonical(JsonView::Object(b)),
{
    let ta = member_texts(a);
    let tb = member_texts(b);
    member_texts_at(a);
    member_texts_at(b);
    assert(distinct_keys(ta)) by {
        assert forall|i: int, j: int|
            #![trigger ta[i], ta[j]]
            0 <= i < j < ta.len() implies ta[i].0 != ta[j].0 by {
            assert(a[i].0 != a[j].0);
        }
    }
    assert(distinct_keys(tb)) by {
        assert forall|i: int, j: int|
            #![trigger tb[i], tb[j]]
            0 <= i < j < tb.len() implies tb[i].0 != tb[j].0 by {
            assert(b[i].0 != b[j].0);
        }
    }
    sorted_ascending(ta);
    sorted_ascending(tb);
    sorted_members(ta);
    sorted_members(tb);
    assert forall|x: MemberText| #[trigger] sorted(ta).contains(x) <==> sorted(tb).contains(x) by {
        if ta.contains(x) {
            let i = choose|i: int| 0 <= i < ta.len() && ta[i] == x;
            assert(a.contains(a[i]));
            assert(b.contains(a[i]));
            let k = choose|k: int| 0 <= k < b.len() && b[k] == a[i];
            assert(tb[k] == x);
        }
        if tb.contains(x) {
            let i = choose|i: int| 0 <= i < tb.len() && tb[i] == x;
            assert(b.contains(b[i]));
            assert(a.contains(b[i]));
            let k = choose|k: int| 0 <= k < a.len() && a[k] == b[i];
            assert(ta[k] == x);
        }
    }
    ascending_unique(sorted(ta), sorted(tb));
}

/// The models of a list of values.
pub open spec fn item_models(v: Seq<Json>) -> Seq<JsonView> {
    v.map_values(|j: Json| j@)
}

/// The models of a list of members.
pub open spec fn member_models(m: Seq<(String, Json)>) -> Seq<(Seq<char>, JsonView)> {
    m.map_values(|e: (String, Json)| (e.0@, e.1@))
}

/// A list of members without any.
pub open spec fn no_fields() -> Seq<(Seq<char>, JsonView)> {
    Seq::empty()
}

/// An array of values.
pub fn array(v: Vec<Json>) -> (r: Json)
    ensures
        r@ == JsonView::Array(item_models(v@)),
{
    let r = Json::Array(v);
    proof {
        assert(r@->Array_0 =~= item_models(v@));
    }
    r
}

/// An object with the given members.
pub fn object(m: Vec<(String, Json)>) -> (r: Json)
    ensures
        r@ == JsonView::Object(member_models(m@)),
{
    let r = Json::Object(m);
    proof {
        assert(r@->Object_0 =~= member_models(m@));
    }
    r
}

/// A string value.
pub fn string(s: &str) -> (r: Json)
    ensures
        r@ == JsonView::Str(s@),
{
    Json::Str(s.to_owned())
}

/// A list of members without any.
pub fn no_members() -> (r: Vec<(String, Json)>)
    ensures
        member_models(r@) == no_fields(),
{
    let r: Vec<(String, Json)> = Vec::new();
    proof {
        assert(member_models(r@) =~= no_fields());
    }
    r
}

/// Adds a member behind the others.
pub fn put(m: &mut Vec<(String, Json)>, key: &str, value: Json)
    ensures
        member_models(final(m)@) == member_models(old(m)@).push((key@, value@)),
{
    let ghost before = member_models(m@);
    let ghost v = value@;
    m.push((key.to_owned(), value));
    proof {
        assert(member_models(m@) =~= before.push((key@, v)));
    }
}

impl Clone for Json {
    fn clone(&self) -> (r: Json)
        ensures
            r@ == self@,
        decreases self,
    {
        match self {
            Json::Null => Json::Null,
            Json::Bool(b) => Json::Bool(*b),
            Json::Int(n) => Json::Int(*n),
            Json::UInt(n) => Json::UInt(*n),
            Json::Number(t) => Json::Number(t.clone()),
            Json::Str(s) => Json::Str(s.clone()),
            Json::Array(v) => {
                let mut out: Vec<Json> = Vec::new();
                let mut i: usize = 0;
                while i < v.len()
                    invariant
                        self matches Json::Array(w) && w == v,
                        i <= v@.len(),
                        out@.len() == i,
                        forall|k: int| 0 <= k < i ==> (#[trigger] out@[k])@ == v@[k]@,
                    decreases v@.len() - i,
                {
                    out.push(v[i].clone());
                    i += 1;
                }
                let r = Json::Array(out);
                proof {
                    assert(r@->Array_0 =~= self@->Array_0);
                }
                r
            },
            Json::Object(m) => {
                let mut out: Vec<(String, Json)> = Vec::new();
                let mut i: usize = 0;
                while i < m.len()
                    invariant
                        self matches Json::Object(w) && w == m,
                        i <= m@.len(),
                        out@.len() == i,
                        forall|k: int|
                            0 <= k < i ==> (#[trigger] out@[k]).0@ == m@[k].0@ && out@[k].1@
                                == m@[k].1@,
                    decreases m@.len() - i,
                {
                    out.push((m[i].0.clone(), m[i].1.clone()));
                    i += 1;
                }
                let r = Json::Object(out);
                proof {
                    assert(r@->Object_0 =~= self@->Object_0);
                }
                r
            },
        }
    }
}

/// Members whose values hold only integers form an object that holds only
/// integers.
pub proof fn integral_members(members: Seq<(Seq<char>, JsonView)>)
    requires
        forall|i: int| 0 <= i < members.len() ==> integral((#[trigger] members[i]).1),
    ensures
        integral(JsonView::Object(members)),
        canonical(JsonView::Object(members)) is Ok,
{
    canonical_iff_integral(JsonView::Object(members));
}

/// An object without members holds only integers.
pub broadcast proof fn integral_none()
    ensures
        #[trigger] integral(JsonView::Object(no_fields())),
{
}

/// A member whose value holds only integers keeps an object integral.
pub broadcast proof fn integral_push(members: Seq<(Seq<char>, JsonView)>, m: (Seq<char>, JsonView))
    requires
        integral(JsonView::Object(members)),
        integral(m.1),
    ensures
        #[trigger] integral(JsonView::Object(members.push(m))),
{
    let before = JsonView::Object(members);
    let all = members.push(m);
    let after = JsonView::Object(all);
    assert(integral(before));
    assert forall|i: int| 0 <= i < all.len() implies integral((#[trigger] all[i]).1) by {
        if i < members.len() {
            assert(all[i] == before->Object_0[i]);
        }
    }
    assert(integral(after));
}

} // verus!
