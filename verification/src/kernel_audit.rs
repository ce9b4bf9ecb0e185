//! The kernel's audit chain: events without secrets, each bound to the one
//! before it, and checkpoints that the host key signs.

use crate::json::{string, Json, JsonView};
use crate::text::{ascii_alike, eq_ignore_ascii_case, matches_at, stands_at, to_chars};
use vstd::prelude::*;

pub mod chain;
pub mod queries;

verus! {

/// What stands in place of a secret.
pub const REDACTED: &'static str = "[REDACTED]";

/// Whether the value under a key is always a secret. Capitals do not matter.
/// References to secrets are opaque and are kept.
pub open spec fn sensitive_key(key: Seq<char>) -> bool {
    ||| ascii_alike("password"@, key)
    ||| ascii_alike("passwd"@, key)
    ||| ascii_alike("secret"@, key)
    ||| ascii_alike("api_key"@, key)
    ||| ascii_alike("apikey"@, key)
    ||| ascii_alike("token"@, key)
    ||| ascii_alike("auth_token"@, key)
    ||| ascii_alike("access_token"@, key)
    ||| ascii_alike("refresh_token"@, key)
    ||| ascii_alike("id_token"@, key)
    ||| ascii_alike("bearer"@, key)
    ||| ascii_alike("authorization"@, key)
    ||| ascii_alike("private_key"@, key)
    ||| ascii_alike("privatekey"@, key)
    ||| ascii_alike("client_secret"@, key)
    ||| ascii_alike("signing_key"@, key)
    ||| ascii_alike("seed"@, key)
    ||| ascii_alike("seed_phrase"@, key)
    ||| ascii_alike("mnemonic"@, key)
    ||| ascii_alike("credentials"@, key)
    ||| ascii_alike("cookie"@, key)
    ||| ascii_alike("set_cookie"@, key)
}

fn is_sensitive_key(key: &str) -> (r: bool)
    ensures
        r == sensitive_key(key@),
{
    eq_ignore_ascii_case("password", key)
        || eq_ignore_ascii_case("passwd", key)
        || eq_ignore_ascii_case("secret", key)
        || eq_ignore_ascii_case("api_key", key)
        || eq_ignore_ascii_case("apikey", key)
        || eq_ignore_ascii_case("token", key)
        || eq_ignore_ascii_case("auth_token", key)
        || eq_ignore_ascii_case("access_token", key)
        || eq_ignore_ascii_case("refresh_token", key)
        || eq_ignore_ascii_case("id_token", key)
        || eq_ignore_ascii_case("bearer", key)
        || eq_ignore_ascii_case("authorization", key)
        || eq_ignore_ascii_case("private_key", key)
        || eq_ignore_ascii_case("privatekey", key)
        || eq_ignore_ascii_case("client_secret", key)
        || eq_ignore_ascii_case("signing_key", key)
        || eq_ignore_ascii_case("seed", key)
        || eq_ignore_ascii_case("seed_phrase", key)
        || eq_ignore_ascii_case("mnemonic", key)
        || eq_ignore_ascii_case("credentials", key)
        || eq_ignore_ascii_case("cookie", key)
        || eq_ignore_ascii_case("set_cookie", key)
}

/// Whether a text is a secret under any key: it starts like one.
pub open spec fn sensitive_text(s: Seq<char>) -> bool {
    ||| stands_at(s, 0, "sk-"@)
    ||| stands_at(s, 0, "sk-ant-"@)
    ||| stands_at(s, 0, "xoxb-"@)
    ||| stands_at(s, 0, "xoxp-"@)
    ||| stands_at(s, 0, "xoxa-"@)
    ||| stands_at(s, 0, "xoxr-"@)
    ||| stands_at(s, 0, "ghp_"@)
    ||| stands_at(s, 0, "gho_"@)
    ||| stands_at(s, 0, "ghu_"@)
    ||| stands_at(s, 0, "ghs_"@)
    ||| stands_at(s, 0, "ghr_"@)
    ||| stands_at(s, 0, "AKIA"@)
    ||| stands_at(s, 0, "-----BEGIN"@)
}

fn is_sensitive_text(s: &str) -> (r: bool)
    ensures
        r == sensitive_text(s@),
{
    let c = to_chars(s);
    matches_at(&c, 0, "sk-")
        || matches_at(&c, 0, "sk-ant-")
        || matches_at(&c, 0, "xoxb-")
        || matches_at(&c, 0, "xoxp-")
        || matches_at(&c, 0, "xoxa-")
        || matches_at(&c, 0, "xoxr-")
        || matches_at(&c, 0, "ghp_")
        || matches_at(&c, 0, "gho_")
        || matches_at(&c, 0, "ghu_")
        || matches_at(&c, 0, "ghs_")
        || matches_at(&c, 0, "ghr_")
        || matches_at(&c, 0, "AKIA")
        || matches_at(&c, 0, "-----BEGIN")
}

/// The value without its secrets.
pub open spec fn redacted(v: JsonView) -> JsonView
    decreases v,
{
    match v {
        JsonView::Object(m) => JsonView::Object(
            Seq::new(
                m.len(),
                |i: int|
                    if 0 <= i < m.len() {
                        (
                            m[i].0,
                            if sensitive_key(m[i].0) {
                                JsonView::Str(REDACTED@)
                            } else {
                                redacted(m[i].1)
                            },
                        )
                    } else {
                        (Seq::<char>::empty(), JsonView::Null)
                    },
            ),
        ),
        JsonView::Array(a) => JsonView::Array(
            Seq::new(
                a.len(),
                |i: int|
                    if 0 <= i < a.len() {
                        redacted(a[i])
                    } else {
                        JsonView::Null
                    },
            ),
        ),
        JsonView::Str(s) => if sensitive_text(s) {
            JsonView::Str(REDACTED@)
        } else {
            v
        },
        _ => v,
    }
}

fn without_secrets(v: &Json) -> (r: Json)
    ensures
        r@ == redacted(v@),
    decreases v,
{
    match v {
        Json::Null => Json::Null,
        Json::Bool(b) => Json::Bool(*b),
        Json::Int(n) => Json::Int(*n),
        Json::UInt(n) => Json::UInt(*n),
        Json::Number(t) => Json::Number(t.clone()),
        Json::Str(s) => if is_sensitive_text(s.as_str()) {
            string(REDACTED)
        } else {
            Json::Str(s.clone())
        },
        Json::Array(a) => {
            let mut out: Vec<Json> = Vec::new();
            let mut i: usize = 0;
            while i < a.len()
                invariant
                    v matches Json::Array(w) && w == a,
                    i <= a@.len(),
                    out@.len() == i,
                    forall|k: int| 0 <= k < i ==> (#[trigger] out@[k])@ == redacted(a@[k]@),
                decreases a@.len() - i,
            {
                out.push(without_secrets(&a[i]));
                i += 1;
            }
            let r = Json::Array(out);
            proof {
                assert(r@->Array_0 =~= redacted(v@)->Array_0);
            }
            r
        },
        Json::Object(m) => {
            let mut out: Vec<(String, Json)> = Vec::new();
            let mut i: usize = 0;
            while i < m.len()
                invariant
                    v matches Json::Object(w) && w == m,
                    i <= m@.len(),
                    out@.len() == i,
                    forall|k: int|
                        0 <= k < i ==> (#[trigger] out@[k]).0@ == m@[k].0@ && out@[k].1@ == (
                        if sensitive_key(m@[k].0@) {
                            JsonView::Str(REDACTED@)
                        } else {
                            redacted(m@[k].1@)
                        }),
                decreases m@.len() - i,
            {
                let value = if is_sensitive_key(m[i].0.as_str()) {
                    string(REDACTED)
                } else {
                    without_secrets(&m[i].1)
                };
                out.push((m[i].0.clone(), value));
                i += 1;
            }
            let r = Json::Object(out);
            proof {
                assert(r@->Object_0 =~= redacted(v@)->Object_0);
            }
            r
        },
    }
}

/// Takes the secrets out of a value. What is left says nothing of them, not
/// even how long they were.
pub fn redact_details(value: &mut Json)
    ensures
        final(value)@ == redacted(old(value)@),
{
    let clean = without_secrets(value);
    *value = clean;
}

/// The value holds no secret: none under a key that names one, and no text that
/// looks like one.
pub open spec fn is_clean(v: JsonView) -> bool
    decreases v,
{
    match v {
        JsonView::Object(m) => forall|i: int|
            0 <= i < m.len() ==> {
                &&& sensitive_key((#[trigger] m[i]).0) ==> m[i].1 == JsonView::Str(REDACTED@)
                &&& is_clean(m[i].1)
            },
        JsonView::Array(a) => forall|i: int| 0 <= i < a.len() ==> is_clean(#[trigger] a[i]),
        JsonView::Str(s) => !sensitive_text(s),
        _ => true,
    }
}

proof fn mark_is_clean()
    ensures
        !sensitive_text(REDACTED@),
{
    reveal_strlit("[REDACTED]");
    reveal_strlit("sk-");
    reveal_strlit("sk-ant-");
    reveal_strlit("xoxb-");
    reveal_strlit("xoxp-");
    reveal_strlit("xoxa-");
    reveal_strlit("xoxr-");
    reveal_strlit("ghp_");
    reveal_strlit("gho_");
    reveal_strlit("ghu_");
    reveal_strlit("ghs_");
    reveal_strlit("ghr_");
    reveal_strlit("AKIA");
    reveal_strlit("-----BEGIN");
    assert(REDACTED@[0] == '[');
    if stands_at(REDACTED@, 0, "sk-"@) {
        assert(REDACTED@.subrange(0, "sk-"@.len() as int)[0] == "sk-"@[0]);
    }
    if stands_at(REDACTED@, 0, "sk-ant-"@) {
        assert(REDACTED@.subrange(0, "sk-ant-"@.len() as int)[0] == "sk-ant-"@[0]);
    }
    if stands_at(REDACTED@, 0, "xoxb-"@) {
        assert(REDACTED@.subrange(0, "xoxb-"@.len() as int)[0] == "xoxb-"@[0]);
    }
    if stands_at(REDACTED@, 0, "xoxp-"@) {
        assert(REDACTED@.subrange(0, "xoxp-"@.len() as int)[0] == "xoxp-"@[0]);
    }
    if stands_at(REDACTED@, 0, "xoxa-"@) {
        assert(REDACTED@.subrange(0, "xoxa-"@.len() as int)[0] == "xoxa-"@[0]);
    }
    if stands_at(REDACTED@, 0, "xoxr-"@) {
        assert(REDACTED@.subrange(0, "xoxr-"@.len() as int)[0] == "xoxr-"@[0]);
    }
    if stands_at(REDACTED@, 0, "ghp_"@) {
        assert(REDACTED@.subrange(0, "ghp_"@.len() as int)[0] == "ghp_"@[0]);
    }
    if stands_at(REDACTED@, 0, "gho_"@) {
        assert(REDACTED@.subrange(0, "gho_"@.len() as int)[0] == "gho_"@[0]);
    }
    if stands_at(REDACTED@, 0, "ghu_"@) {
        assert(REDACTED@.subrange(0, "ghu_"@.len() as int)[0] == "ghu_"@[0]);
    }
    if stands_at(REDACTED@, 0, "ghs_"@) {
        assert(REDACTED@.subrange(0, "ghs_"@.len() as int)[0] == "ghs_"@[0]);
    }
    if stands_at(REDACTED@, 0, "ghr_"@) {
        assert(REDACTED@.subrange(0, "ghr_"@.len() as int)[0] == "ghr_"@[0]);
    }
    if stands_at(REDACTED@, 0, "AKIA"@) {
        assert(REDACTED@.subrange(0, "AKIA"@.len() as int)[0] == "AKIA"@[0]);
    }
    if stands_at(REDACTED@, 0, "-----BEGIN"@) {
        assert(REDACTED@.subrange(0, "-----BEGIN"@.len() as int)[0] == "-----BEGIN"@[0]);
    }
}

/// What is redacted holds no secret, and redacting it again changes nothing.
pub proof fn redaction_leaves_no_secret(v: JsonView)
    ensures
        is_clean(redacted(v)),
        redacted(redacted(v)) == redacted(v),
    decreases v,
{
    let r = redacted(v);
    mark_is_clean();
    match v {
        JsonView::Object(m) => {
            let q = r->Object_0;
            let mark = JsonView::Str(REDACTED@);
            assert(is_clean(mark));
            assert forall|i: int| 0 <= i < q.len() implies {
                &&& sensitive_key((#[trigger] q[i]).0) ==> q[i].1 == mark
                &&& is_clean(q[i].1)
            } by {
                redaction_leaves_no_secret(m[i].1);
            }
            let again = redacted(r)->Object_0;
            assert forall|i: int| 0 <= i < q.len() implies again[i] == #[trigger] q[i] by {
                redaction_leaves_no_secret(m[i].1);
            }
            assert(again =~= q);
        },
        JsonView::Array(a) => {
            let q = r->Array_0;
            assert forall|i: int| 0 <= i < q.len() implies is_clean(#[trigger] q[i]) by {
                redaction_leaves_no_secret(a[i]);
            }
            let again = redacted(r)->Array_0;
            assert forall|i: int| 0 <= i < q.len() implies again[i] == #[trigger] q[i] by {
                redaction_leaves_no_secret(a[i]);
            }
            assert(again =~= q);
        },
        JsonView::Str(s) => {},
        _ => {},
    }
}

/// A value that is shown as a mark only.
pub struct Secret<T> {
    value: T,
}

impl<T> Secret<T> {
    /// What is hidden.
    pub closed spec fn inner(&self) -> T {
        self.value
    }

    /// Hides a value.
    pub fn new(value: T) -> (r: Secret<T>)
        ensures
            r.inner() == value,
    {
        Secret { value }
    }

    /// The value.
    pub fn expose(&self) -> (r: &T)
        ensures
            *r == self.inner(),
    {
        &self.value
    }

    /// What is shown in its place, whatever it is.
    pub fn shown(&self) -> (r: &'static str)
        ensures
            r@ == REDACTED@,
    {
        REDACTED
    }
}

/// Redaction changes nothing but secrets. An object keeps its keys in their
/// places, and loses exactly the values under these names, in whatever case;
/// an array keeps its items in their places; a text is replaced exactly if it
/// starts like a secret; and everything else stays.
pub proof fn redaction_changes_only_secrets(
    m: Seq<(Seq<char>, JsonView)>,
    items: Seq<JsonView>,
    s: Seq<char>,
    n: int,
    b: bool,
    t: Seq<char>,
)
    ensures
        ({
            let q = redacted(JsonView::Object(m));
            &&& q is Object && q->Object_0.len() == m.len()
            &&& forall|i: int|
                0 <= i < m.len() ==> {
                    let key = (#[trigger] m[i]).0;
                    let named = ascii_alike("password"@, key) || ascii_alike("passwd"@, key)
                        || ascii_alike("secret"@, key) || ascii_alike("api_key"@, key)
                        || ascii_alike("apikey"@, key) || ascii_alike("token"@, key)
                        || ascii_alike("auth_token"@, key) || ascii_alike("access_token"@, key)
                        || ascii_alike("refresh_token"@, key) || ascii_alike("id_token"@, key)
                        || ascii_alike("bearer"@, key) || ascii_alike("authorization"@, key)
                        || ascii_alike("private_key"@, key) || ascii_alike("privatekey"@, key)
                        || ascii_alike("client_secret"@, key) || ascii_alike("signing_key"@, key)
                        || ascii_alike("seed"@, key) || ascii_alike("seed_phrase"@, key)
                        || ascii_alike("mnemonic"@, key) || ascii_alike("credentials"@, key)
                        || ascii_alike("cookie"@, key) || ascii_alike("set_cookie"@, key);
                    &&& q->Object_0[i].0 == key
                    &&& named ==> q->Object_0[i].1 == JsonView::Str("[REDACTED]"@)
                    &&& !named ==> q->Object_0[i].1 == redacted(m[i].1)
                }
        }),
        ({
            let q = redacted(JsonView::Array(items));
            &&& q is Array && q->Array_0.len() == items.len()
            &&& forall|i: int|
                0 <= i < items.len() ==> #[trigger] q->Array_0[i] == redacted(items[i])
        }),
        ({
            let starts = stands_at(s, 0, "sk-"@) || stands_at(s, 0, "sk-ant-"@) || stands_at(
                s,
                0,
                "xoxb-"@,
            ) || stands_at(s, 0, "xoxp-"@) || stands_at(s, 0, "xoxa-"@) || stands_at(
                s,
                0,
                "xoxr-"@,
            ) || stands_at(s, 0, "ghp_"@) || stands_at(s, 0, "gho_"@) || stands_at(s, 0, "ghu_"@)
                || stands_at(s, 0, "ghs_"@) || stands_at(s, 0, "ghr_"@) || stands_at(s, 0, "AKIA"@)
                || stands_at(s, 0, "-----BEGIN"@);
            &&& starts ==> redacted(JsonView::Str(s)) == JsonView::Str("[REDACTED]"@)
            &&& !starts ==> redacted(JsonView::Str(s)) == JsonView::Str(s)
        }),
        redacted(JsonView::Int(n)) == JsonView::Int(n),
        redacted(JsonView::Bool(b)) == JsonView::Bool(b),
        redacted(JsonView::Number(t)) == JsonView::Number(t),
        redacted(JsonView::Null) == JsonView::Null,
{
}

} // verus!
