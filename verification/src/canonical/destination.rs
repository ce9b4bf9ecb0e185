//! Network destinations: scheme, host, ports and methods.

use super::host::{host_of, HostPattern, HostView};
use super::ports::{
    list_is_injective, list_lacks_colon, parse_port_list, within_is_inclusion,
    within_is_transitive, PortSet, PortsView,
};
use super::{outcome, unit_outcome, CanonicalError, CanonicalErrorView};
use crate::ip::{
    ip_of_text, ip_text, is_ip_char, parse_ip, parse_range, range_of_text, range_text, IpAddress,
    IpRange,
};
use crate::text::{
    all_in_class, char_in_class, chars_in_class, chars_lack, concat, contains_str, find_char,
    find_str, from_chars, in_class, insert_sorted, join, join_of_split, join_strings, lacks,
    lowercase, matches_at, same_strings, sorted_texts, split, split_chars, split_of_join, split_pieces,
    stands_at, str_eq, str_lt, surround, text_lt, texts, to_chars, uppercase,
};
use crate::url_parts::{parse_url, url_of_text, UrlHost, UrlHostView};
use vstd::prelude::*;

verus! {

/// A network destination grant.
#[derive(Debug, PartialEq, Eq)]
pub struct NetworkDestination {
    /// The lower-cased scheme. Empty means any scheme.
    pub scheme: String,
    pub host: HostPattern,
    pub ports: PortSet,
    /// Upper-cased methods in ascending order. They matter for the HTTP family
    /// of schemes only. None means unrestricted.
    pub methods: Vec<String>,
}

/// The model of a `NetworkDestination`.
#[verifier::ext_equal]
pub struct DestinationView {
    pub scheme: Seq<char>,
    pub host: HostView,
    pub ports: PortsView,
    pub methods: Seq<Seq<char>>,
}

impl View for NetworkDestination {
    type V = DestinationView;

    open spec fn view(&self) -> DestinationView {
        DestinationView {
            scheme: self.scheme@,
            host: self.host@,
            ports: self.ports@,
            methods: texts(self.methods@),
        }
    }
}

impl Clone for NetworkDestination {
    fn clone(&self) -> (r: NetworkDestination)
        ensures
            r@ == self@,
    {
        NetworkDestination {
            scheme: self.scheme.clone(),
            host: self.host.clone(),
            ports: self.ports.clone(),
            methods: crate::text::clone_strings(&self.methods),
        }
    }
}

/// Methods apply to this scheme.
pub open spec fn http_family(scheme: Seq<char>) -> bool {
    scheme == "http"@ || scheme == "https"@ || scheme == "ws"@ || scheme == "wss"@
}

/// Whether methods apply to this scheme.
pub fn is_http_family(scheme: &str) -> (r: bool)
    ensures
        r == http_family(scheme@),
{
    str_eq(scheme, "http") || str_eq(scheme, "https") || str_eq(scheme, "ws") || str_eq(
        scheme,
        "wss",
    )
}

/// Every text of the first list is in the second.
pub open spec fn texts_within(a: Seq<Seq<char>>, b: Seq<Seq<char>>) -> bool {
    forall|i: int| 0 <= i < a.len() ==> b.contains(#[trigger] a[i])
}

/// Whether every string of the first list is in the second.
pub fn strings_within(a: &Vec<String>, b: &Vec<String>) -> (r: bool)
    ensures
        r == texts_within(texts(a@), texts(b@)),
{
    let mut i: usize = 0;
    while i < a.len()
        invariant
            i <= a@.len(),
            forall|k: int| 0 <= k < i ==> texts(b@).contains(#[trigger] texts(a@)[k]),
        decreases a@.len() - i,
    {
        if !contains_str(b, a[i].as_str()) {
            proof {
                assert(!texts(b@).contains(texts(a@)[i as int]));
            }
            return false;
        }
        i += 1;
    }
    true
}

/// An allowlist covers another: an empty one allows every method.
pub open spec fn methods_within(child: Seq<Seq<char>>, parent: Seq<Seq<char>>) -> bool {
    if child.len() == 0 {
        parent.len() == 0
    } else {
        parent.len() == 0 || texts_within(child, parent)
    }
}

impl DestinationView {
    /// The host and the methods are well formed.
    pub open spec fn wf(self) -> bool {
        self.host.wf() && sorted_texts(self.methods)
    }

    /// Whether the child is covered by the parent: scheme, host, ports, and
    /// methods where they apply to both.
    pub open spec fn subset(self, parent: DestinationView) -> Result<(), CanonicalErrorView> {
        if parent.scheme.len() > 0 && self.scheme != parent.scheme {
            Err(CanonicalErrorView::Incomparable)
        } else if self.host.subset(parent.host) is Err {
            self.host.subset(parent.host)
        } else if !self.ports.within(parent.ports) {
            Err(CanonicalErrorView::Incomparable)
        } else if http_family(self.scheme) && http_family(parent.scheme) && !methods_within(
            self.methods,
            parent.methods,
        ) {
            Err(CanonicalErrorView::Incomparable)
        } else {
            Ok(())
        }
    }

    /// The canonical form.
    pub open spec fn form(self) -> Seq<char> {
        let base = "net:"@ + self.scheme + "://"@ + self.host.form() + ":"@ + self.ports.form();
        if http_family(self.scheme) && self.methods.len() > 0 {
            base + ":"@ + join(self.methods, ',')
        } else {
            base
        }
    }
}

/// The scheme, host and port of a URL that names a destination.
pub open spec fn destination_of(input: Seq<char>) -> Result<
    (Seq<char>, HostView, u16),
    CanonicalErrorView,
> {
    let bad = Err(CanonicalErrorView::BadDestination(input));
    match url_of_text(input) {
        Err(_) => bad,
        Ok(u) => {
            if lowercase(u.scheme).len() == 0 {
                bad
            } else {
                let host = match u.host {
                    None => None,
                    Some(UrlHostView::Ip(a)) => Some(HostView::Ip(a)),
                    Some(UrlHostView::Domain(d)) => match host_of(d) {
                        Ok(h) => Some(h),
                        Err(_) => None,
                    },
                };
                match (host, u.port) {
                    (None, _) => bad,
                    (Some(_), None) => Err(
                        CanonicalErrorView::BadDestination(
                            input + ": unknown scheme, explicit port required"@,
                        ),
                    ),
                    (Some(h), Some(p)) => Ok((lowercase(u.scheme), h, p)),
                }
            }
        },
    }
}

impl NetworkDestination {
    /// Reads `scheme://host[:port][/...]` with an optional method allowlist.
    /// The default port of a known scheme may be left out.
    pub fn parse(input: &str, methods: &Vec<String>) -> (r: Result<
        NetworkDestination,
        CanonicalError,
    >)
        ensures
            match (r, destination_of(input@)) {
                (Ok(d), Ok((scheme, host, port))) => {
                    &&& d@.wf()
                    &&& d@.scheme == scheme
                    &&& d@.host == host
                    &&& d@.ports == (PortsView { ranges: seq![(port, port)], any: false })
                    &&& forall|t: Seq<char>| #[trigger]
                        d@.methods.contains(t) <==> exists|i: int|
                            0 <= i < methods@.len() && uppercase(#[trigger] methods@[i]@) == t
                },
                (Err(e), Err(w)) => e@ == w,
                _ => false,
            },
    {
        let u = match parse_url(input) {
            Ok(u) => u,
            Err(_) => {
                return Err(CanonicalError::BadDestination(input.to_owned()));
            },
        };
        let scheme = u.scheme.as_str().to_lowercase();
        if scheme.as_str().is_empty() {
            return Err(CanonicalError::BadDestination(input.to_owned()));
        }
        let host = match u.host {
            Some(UrlHost::Ip(a)) => HostPattern::Ip(a),
            Some(UrlHost::Domain(d)) => match HostPattern::parse(d.as_str()) {
                Ok(h) => h,
                Err(_) => {
                    return Err(CanonicalError::BadDestination(input.to_owned()));
                },
            },
            None => {
                return Err(CanonicalError::BadDestination(input.to_owned()));
            },
        };
        let port: u16 = match u.port {
            Some(p) => p,
            None => {
                return Err(
                    CanonicalError::BadDestination(
                        concat(input, ": unknown scheme, explicit port required"),
                    ),
                );
            },
        };
        let mut list: Vec<String> = Vec::new();
        let mut i: usize = 0;
        while i < methods.len()
            invariant
                i <= methods@.len(),
                sorted_texts(texts(list@)),
                forall|t: Seq<char>| #[trigger]
                    texts(list@).contains(t) <==> upper_among(methods@, i as int, t),
            decreases methods@.len() - i,
        {
            let ghost before = texts(list@);
            insert_sorted(&mut list, methods[i].as_str().to_uppercase());
            proof {
                assert forall|t: Seq<char>| #[trigger]
                    texts(list@).contains(t) <==> upper_among(methods@, i + 1, t) by {
                    assert(before.contains(t) <==> upper_among(methods@, i as int, t));
                    if upper_among(methods@, i as int, t) {
                        let k = choose|k: int|
                            0 <= k < i && uppercase(#[trigger] methods@[k]@) == t;
                        assert(uppercase(methods@[k]@) == t);
                    }
                    if t == uppercase(methods@[i as int]@) {
                        assert(uppercase(methods@[i as int]@) == t);
                    }
                    if upper_among(methods@, i + 1, t) {
                        let k = choose|k: int|
                            0 <= k < i + 1 && uppercase(#[trigger] methods@[k]@) == t;
                        if k < i {
                            assert(upper_among(methods@, i as int, t));
                        }
                    }
                }
            }
            i += 1;
        }
        let d = NetworkDestination { scheme, host, ports: PortSet::single(port), methods: list };
        proof {
            assert forall|t: Seq<char>| #[trigger]
                d@.methods.contains(t) <==> exists|i: int|
                    0 <= i < methods@.len() && uppercase(#[trigger] methods@[i]@) == t by {
                assert(texts(list@).contains(t) <==> upper_among(
                    methods@,
                    methods@.len() as int,
                    t,
                ));
            }
        }
        Ok(d)
    }

    /// Whether this destination is covered by `parent`.
    pub fn is_subset_of(&self, parent: &NetworkDestination) -> (r: Result<(), CanonicalError>)
        requires
            parent@.host.wf(),
        ensures
            unit_outcome(r) == self@.subset(parent@),
    {
        if !parent.scheme.as_str().is_empty() && !str_eq(
            self.scheme.as_str(),
            parent.scheme.as_str(),
        ) {
            return Err(CanonicalError::Incomparable);
        }
        if let Err(e) = self.host.is_subset_of(&parent.host) {
            return Err(e);
        }
        if !self.ports.is_subset_of(&parent.ports) {
            return Err(CanonicalError::Incomparable);
        }
        if is_http_family(self.scheme.as_str()) && is_http_family(parent.scheme.as_str()) {
            let covered = if self.methods.len() == 0 {
                parent.methods.len() == 0
            } else {
                parent.methods.len() == 0 || strings_within(&self.methods, &parent.methods)
            };
            if !covered {
                return Err(CanonicalError::Incomparable);
            }
        }
        Ok(())
    }

    /// The canonical form.
    pub fn canonical_form(&self) -> (r: String)
        requires
            self@.host.wf(),
        ensures
            r@ == self@.form(),
    {
        let mut out = surround("net:", self.scheme.as_str(), "://");
        out.append(self.host.canonical_form().as_str());
        out.append(":");
        out.append(self.ports.canonical_form().as_str());
        if is_http_family(self.scheme.as_str()) && self.methods.len() > 0 {
            out.append(":");
            out.append(join_strings(&self.methods, ',').as_str());
        }
        out
    }
}

/// Some of the first `n` methods is `t` in upper case.
spec fn upper_among(methods: Seq<String>, n: int, t: Seq<char>) -> bool {
    exists|k: int| 0 <= k < n && uppercase(#[trigger] methods[k]@) == t
}

/// A destination covers itself.
pub proof fn destination_subset_reflexive(d: DestinationView)
    ensures
        d.subset(d) == Ok::<(), CanonicalErrorView>(()),
{
    within_is_transitive(d.ports, d.ports, d.ports);
    assert forall|i: int| 0 <= i < d.methods.len() implies d.methods.contains(
        #[trigger] d.methods[i],
    ) by {}
}

/// Covering is transitive.
pub proof fn destination_subset_transitive(
    a: DestinationView,
    b: DestinationView,
    c: DestinationView,
)
    requires
        a.wf(),
        b.wf(),
        c.wf(),
        a.subset(b) is Ok,
        b.subset(c) is Ok,
    ensures
        a.subset(c) is Ok,
{
    super::host::host_subset_transitive(a.host, b.host, c.host);
    within_is_transitive(a.ports, b.ports, c.ports);
    reveal_strlit("http");
    reveal_strlit("https");
    reveal_strlit("ws");
    reveal_strlit("wss");
    if http_family(a.scheme) && http_family(c.scheme) && a.methods.len() > 0 && c.methods.len() > 0 {
        assert(http_family(b.scheme));
        assert forall|i: int| 0 <= i < a.methods.len() implies c.methods.contains(
            #[trigger] a.methods[i],
        ) by {
            assert(b.methods.contains(a.methods[i]));
            let j = choose|j: int| 0 <= j < b.methods.len() && b.methods[j] == a.methods[i];
            assert(c.methods.contains(b.methods[j]));
        }
    }
}

/// What a canonical host form starts with.
#[derive(Clone, Copy, Debug, PartialEq, Eq, Structural)]
enum HostKind {
    Dns,
    DnsWild,
    Ip,
    IpRange,
}

impl HostKind {
    spec fn tag(self) -> Seq<char> {
        match self {
            HostKind::Dns => "dns"@,
            HostKind::DnsWild => "dnswild"@,
            HostKind::Ip => "ip"@,
            HostKind::IpRange => "iprange"@,
        }
    }

    /// Whether a value may stand behind the tag.
    spec fn fits(self, value: Seq<char>) -> bool {
        match self {
            HostKind::Dns | HostKind::DnsWild => lacks(value, ':'),
            HostKind::Ip | HostKind::IpRange => lacks(value, 'p'),
        }
    }

    fn parse(tag: &str) -> (r: Option<HostKind>)
        ensures
            match r {
                Some(k) => k.tag() == tag@,
                None => forall|k: HostKind| #[trigger] k.tag() != tag@,
            },
    {
        if str_eq(tag, "dns") {
            Some(HostKind::Dns)
        } else if str_eq(tag, "dnswild") {
            Some(HostKind::DnsWild)
        } else if str_eq(tag, "ip") {
            Some(HostKind::Ip)
        } else if str_eq(tag, "iprange") {
            Some(HostKind::IpRange)
        } else {
            None
        }
    }
}

/// Different kinds have different tags, without colons.
proof fn tags_differ(a: HostKind, b: HostKind)
    ensures
        a.tag() == b.tag() ==> a == b,
        lacks(a.tag(), ':'),
{
    reveal_strlit("dns");
    reveal_strlit("dnswild");
    reveal_strlit("ip");
    reveal_strlit("iprange");
    if a.tag() == b.tag() {
        assert(a.tag()[0] == b.tag()[0]);
        assert(a.tag().len() == b.tag().len());
    }
}

/// The pieces of a canonical destination.
struct Segments {
    scheme: String,
    kind: HostKind,
    value: String,
    ports: String,
    methods: Option<String>,
}

/// The model of `Segments`.
struct SegmentsView {
    scheme: Seq<char>,
    kind: HostKind,
    value: Seq<char>,
    ports: Seq<char>,
    methods: Option<Seq<char>>,
}

impl Segments {
    spec fn model(&self) -> SegmentsView {
        SegmentsView {
            scheme: self.scheme@,
            kind: self.kind,
            value: self.value@,
            ports: self.ports@,
            methods: match self.methods {
                Some(m) => Some(m@),
                None => None,
            },
        }
    }
}

impl SegmentsView {
    /// Nothing in a piece can be mistaken for the marks between the pieces.
    spec fn ok(self) -> bool {
        lacks(self.scheme, ':') && self.kind.fits(self.value) && lacks(self.ports, ':')
    }

    /// The pieces put together.
    spec fn glue(self) -> Seq<char> {
        let base = "net:"@ + self.scheme + "://"@ + self.kind.tag() + ":"@ + self.value
            + ":ports:"@ + self.ports;
        match self.methods {
            Some(m) => base + ":"@ + m,
            None => base,
        }
    }
}

/// Where the marks stand in pieces put together.
proof fn marks(g: SegmentsView)
    ensures
        ({
            let s = g.glue();
            let e1 = 4 + g.scheme.len() as int;
            let k0 = e1 + 3;
            let k1 = k0 + g.kind.tag().len() as int;
            let v1 = k1 + 1 + g.value.len() as int;
            let q1 = v1 + 7 + g.ports.len() as int;
            &&& s.len() >= q1
            &&& s.subrange(0, 4) == "net:"@
            &&& s.subrange(4, e1) == g.scheme
            &&& s.subrange(e1, k0) == "://"@
            &&& s.subrange(k0, k1) == g.kind.tag()
            &&& s[k1] == ':'
            &&& s.subrange(k1 + 1, v1) == g.value
            &&& s.subrange(v1, v1 + 7) == ":ports:"@
            &&& s.subrange(v1 + 7, q1) == g.ports
            &&& g.methods matches Some(m) ==> s.len() == q1 + 1 + m.len() && s[q1] == ':'
                && s.subrange(q1 + 1, s.len() as int) == m
            &&& g.methods is None ==> s.len() == q1
        }),
{
    reveal_strlit("net:");
    reveal_strlit("://");
    reveal_strlit(":");
    reveal_strlit(":ports:");
    let s = g.glue();
    let e1 = 4 + g.scheme.len() as int;
    let k0 = e1 + 3;
    let k1 = k0 + g.kind.tag().len() as int;
    let v1 = k1 + 1 + g.value.len() as int;
    let q1 = v1 + 7 + g.ports.len() as int;
    assert(s.subrange(0, 4) =~= "net:"@);
    assert(s.subrange(4, e1) =~= g.scheme);
    assert(s.subrange(e1, k0) =~= "://"@);
    assert(s.subrange(k0, k1) =~= g.kind.tag());
    assert(s.subrange(k1 + 1, v1) =~= g.value);
    assert(s.subrange(v1, v1 + 7) =~= ":ports:"@);
    assert(s.subrange(v1 + 7, q1) =~= g.ports);
    if let Some(m) = g.methods {
        assert(s.subrange(q1 + 1, s.len() as int) =~= m);
    }
}

/// The first mark behind a piece that cannot hold it stands at the end of the
/// piece.
proof fn scheme_mark(g: SegmentsView, i: int)
    requires
        g.ok(),
        4 <= i,
        stands_at(g.glue(), i, "://"@),
        forall|j: int| 4 <= j < i ==> !#[trigger] stands_at(g.glue(), j, "://"@),
    ensures
        i == 4 + g.scheme.len() as int,
{
    marks(g);
    reveal_strlit("://");
    let s = g.glue();
    let e1 = 4 + g.scheme.len() as int;
    assert(stands_at(s, e1, "://"@));
    if i < e1 {
        assert(s.subrange(i, i + 3)[0] == ':');
        assert(s[i] == g.scheme[i - 4]) by {
            assert(s.subrange(4, e1)[i - 4] == s[i]);
        }
    }
}

proof fn value_mark(g: SegmentsView, i: int)
    requires
        g.ok(),
        ({
            let v0 = 4 + g.scheme.len() as int + 3 + g.kind.tag().len() as int + 1;
            &&& v0 <= i
            &&& stands_at(g.glue(), i, ":ports:"@)
            &&& forall|j: int| v0 <= j < i ==> !#[trigger] stands_at(g.glue(), j, ":ports:"@)
        }),
    ensures
        i == 4 + g.scheme.len() as int + 3 + g.kind.tag().len() as int + 1 + g.value.len() as int,
{
    marks(g);
    reveal_strlit(":ports:");
    let s = g.glue();
    let v0 = 4 + g.scheme.len() as int + 3 + g.kind.tag().len() as int + 1;
    let v1 = v0 + g.value.len() as int;
    assert(stands_at(s, v1, ":ports:"@));
    if i < v1 {
        let w = s.subrange(i, i + 7);
        assert(w[0] == ':' && w[1] == 'p');
        assert(s[i] == ':' && s[i + 1] == 'p');
        assert(s.subrange(v0, v1)[i - v0] == s[i]);
        if i + 1 < v1 {
            assert(s.subrange(v0, v1)[i + 1 - v0] == s[i + 1]);
        } else {
            assert(s.subrange(v1, v1 + 7)[0] == s[i + 1]);
        }
    }
}

/// Takes a canonical destination apart.
fn take_apart(input: &str) -> (r: Option<Segments>)
    ensures
        match r {
            Some(g) => g.model().ok() && g.model().glue() == input@,
            None => forall|g: SegmentsView| g.ok() ==> #[trigger] g.glue() != input@,
        },
{
    let c = to_chars(input);
    let n: usize = c.len();
    if !matches_at(&c, 0, "net:") {
        proof {
            assert forall|g: SegmentsView| g.ok() implies #[trigger] g.glue() != input@ by {
                marks(g);
                reveal_strlit("net:");
            }
        }
        return None;
    }
    proof {
        reveal_strlit("net:");
        reveal_strlit("://");
        reveal_strlit(":ports:");
        reveal_strlit(":");
    }
    let e1: usize = match find_str(&c, 4, "://") {
        Some(i) => i,
        None => {
            proof {
                assert forall|g: SegmentsView| g.ok() implies #[trigger] g.glue() != input@ by {
                    marks(g);
                    let at = 4 + g.scheme.len() as int;
                    if g.glue() == input@ {
                        assert(stands_at(input@, at, "://"@));
                    }
                }
            }
            return None;
        },
    };
    let k0: usize = e1 + 3;
    let k1: usize = match find_char(&c, k0, ':') {
        Some(i) => i,
        None => {
            proof {
                assert forall|g: SegmentsView| g.ok() implies #[trigger] g.glue() != input@ by {
                    marks(g);
                    if g.glue() == input@ {
                        scheme_mark(g, e1 as int);
                        let at = k0 + g.kind.tag().len() as int;
                        assert(input@[at] == ':');
                    }
                }
            }
            return None;
        },
    };
    let tag = from_chars(&c, k0, k1);
    proof {
        assert forall|g: SegmentsView| g.ok() && #[trigger] g.glue() == input@ implies e1 == 4
            + g.scheme.len() && k1 == k0 + g.kind.tag().len() && g.kind.tag() == tag@ by {
            marks(g);
            scheme_mark(g, e1 as int);
            tags_differ(g.kind, g.kind);
            let t = g.kind.tag();
            let at = k0 + t.len() as int;
            assert(input@[at] == ':');
            if k1 < at {
                assert(input@.subrange(k0 as int, at)[k1 - k0] == input@[k1 as int]);
            }
            assert(k1 == at);
        }
    }
    let kind = match HostKind::parse(tag.as_str()) {
        Some(k) => k,
        None => {
            proof {
                assert forall|g: SegmentsView| g.ok() implies #[trigger] g.glue() != input@ by {
                    assert(g.kind.tag() != tag@);
                }
            }
            return None;
        },
    };
    let v0: usize = k1 + 1;
    let v1: usize = match find_str(&c, v0, ":ports:") {
        Some(i) => i,
        None => {
            proof {
                assert forall|g: SegmentsView| g.ok() implies #[trigger] g.glue() != input@ by {
                    if g.glue() == input@ {
                        marks(g);
                        let at = v0 + g.value.len() as int;
                        assert(stands_at(input@, at, ":ports:"@));
                    }
                }
            }
            return None;
        },
    };
    proof {
        assert forall|g: SegmentsView| g.ok() && #[trigger] g.glue() == input@ implies v1 == v0
            + g.value.len() && g.value == input@.subrange(v0 as int, v1 as int) && g.kind == kind by {
            marks(g);
            value_mark(g, v1 as int);
            tags_differ(g.kind, kind);
        }
    }
    let value = from_chars(&c, v0, v1);
    let vc = to_chars(value.as_str());
    let fits = match kind {
        HostKind::Dns | HostKind::DnsWild => chars_lack(&vc, ':'),
        HostKind::Ip | HostKind::IpRange => chars_lack(&vc, 'p'),
    };
    if !fits {
        proof {
            assert forall|g: SegmentsView| g.ok() implies #[trigger] g.glue() != input@ by {}
        }
        return None;
    }
    let q0: usize = v1 + 7;
    let scheme = from_chars(&c, 4, e1);
    let scheme_ok = chars_lack(&to_chars(scheme.as_str()), ':');
    if !scheme_ok {
        proof {
            assert forall|g: SegmentsView| g.ok() implies #[trigger] g.glue() != input@ by {
                if g.glue() == input@ {
                    marks(g);
                    assert(g.scheme =~= scheme@);
                }
            }
        }
        return None;
    }
    let out = match find_char(&c, q0, ':') {
        Some(m) => Segments {
            scheme,
            kind,
            value,
            ports: from_chars(&c, q0, m),
            methods: Some(from_chars(&c, m + 1, n)),
        },
        None => Segments { scheme, kind, value, ports: from_chars(&c, q0, n), methods: None },
    };
    proof {
        assert(out.model().glue() =~= input@) by {
            assert(input@.subrange(0, 4) =~= "net:"@);
            assert(input@.subrange(e1 as int, e1 + 3) =~= "://"@);
            assert(input@.subrange(v1 as int, v1 + 7) =~= ":ports:"@);
            piecewise(
                input@,
                out.model(),
                e1 as int,
                k1 as int,
                v1 as int,
            );
        }
    }
    Some(out)
}

/// Pieces that are cut out of `s` at its marks make `s` again.
proof fn piecewise(s: Seq<char>, g: SegmentsView, e1: int, k1: int, v1: int)
    requires
        4 <= e1,
        e1 + 3 <= k1 < v1,
        v1 + 7 <= s.len(),
        s.subrange(0, 4) == "net:"@,
        g.scheme == s.subrange(4, e1),
        s.subrange(e1, e1 + 3) == "://"@,
        g.kind.tag() == s.subrange(e1 + 3, k1),
        s[k1] == ':',
        g.value == s.subrange(k1 + 1, v1),
        s.subrange(v1, v1 + 7) == ":ports:"@,
        match g.methods {
            None => g.ports == s.subrange(v1 + 7, s.len() as int),
            Some(m) => {
                let q = v1 + 7 + g.ports.len();
                q < s.len() && g.ports == s.subrange(v1 + 7, q) && s[q] == ':' && m == s.subrange(
                    q + 1,
                    s.len() as int,
                )
            },
        },
    ensures
        g.glue() == s,
{
    reveal_strlit("net:");
    reveal_strlit("://");
    reveal_strlit(":");
    reveal_strlit(":ports:");
    let a = "net:"@ + g.scheme + "://"@;
    assert(a =~= s.subrange(0, e1 + 3));
    let b = a + g.kind.tag() + ":"@;
    assert(b =~= s.subrange(0, k1 + 1));
    let d = b + g.value + ":ports:"@;
    assert(d =~= s.subrange(0, v1 + 7));
    let q = v1 + 7 + g.ports.len();
    assert(d + g.ports =~= s.subrange(0, q));
    assert(g.glue() =~= s);
}

/// A URI scheme in its lower-case spelling.
pub open spec fn scheme_ok(s: Seq<char>) -> bool {
    s.len() > 0 && in_class(s[0], true, false, false, ""@) && all_in_class(
        s,
        true,
        false,
        true,
        "+-."@,
    )
}

/// A method token in its upper-case spelling.
pub open spec fn method_ok(m: Seq<char>) -> bool {
    m.len() > 0 && all_in_class(m, false, true, true, "!#$%&'*+-.^_`|~"@)
}

/// Every method is a token.
pub open spec fn all_methods_ok(methods: Seq<Seq<char>>) -> bool {
    forall|i: int| 0 <= i < methods.len() ==> method_ok(#[trigger] methods[i])
}

/// The text of an address is made of address characters.
pub open spec fn ip_chars_only(a: IpAddress) -> bool {
    forall|i: int| 0 <= i < ip_text(a).len() ==> is_ip_char(#[trigger] ip_text(a)[i])
}

/// A host whose canonical form is read as this host.
pub open spec fn host_decodable(h: HostView) -> bool {
    match h {
        HostView::DnsName(n) => lacks(n, ':') && host_of(n) == Ok::<HostView, CanonicalErrorView>(
            h,
        ),
        HostView::DnsWildcard(s) => lacks(s, ':') && host_of(s) == Ok::<
            HostView,
            CanonicalErrorView,
        >(HostView::DnsName(s)),
        HostView::Ip(a) => ip_chars_only(a) && ip_of_text(ip_text(a)) == Some(a),
        HostView::IpRange(r) => r.wf() && ip_chars_only(r.addr) && range_of_text(range_text(r))
            == Some(r),
    }
}

impl DestinationView {
    /// A destination that its canonical form determines: every part is in its
    /// canonical spelling, and methods stand only where they apply.
    pub open spec fn decodable(self) -> bool {
        &&& scheme_ok(self.scheme)
        &&& host_decodable(self.host)
        &&& self.ports.listable()
        &&& sorted_texts(self.methods)
        &&& all_methods_ok(self.methods)
        &&& self.methods.len() > 0 ==> http_family(self.scheme)
    }
}

spec fn kind_of(h: HostView) -> HostKind {
    match h {
        HostView::DnsName(_) => HostKind::Dns,
        HostView::DnsWildcard(_) => HostKind::DnsWild,
        HostView::Ip(_) => HostKind::Ip,
        HostView::IpRange(_) => HostKind::IpRange,
    }
}

spec fn value_of(h: HostView) -> Seq<char> {
    match h {
        HostView::DnsName(n) => n,
        HostView::DnsWildcard(s) => "*."@ + s,
        HostView::Ip(a) => ip_text(a),
        HostView::IpRange(r) => range_text(r),
    }
}

spec fn segments_of(d: DestinationView) -> SegmentsView {
    SegmentsView {
        scheme: d.scheme,
        kind: kind_of(d.host),
        value: value_of(d.host),
        ports: d.ports.list(),
        methods: if http_family(d.scheme) && d.methods.len() > 0 {
            Some(join(d.methods, ','))
        } else {
            None
        },
    }
}

/// The canonical form is its pieces put together.
proof fn form_is_glued(d: DestinationView)
    ensures
        d.form() == segments_of(d).glue(),
{
    reveal_strlit("net:");
    reveal_strlit("://");
    reveal_strlit(":");
    reveal_strlit(":ports:");
    reveal_strlit("ports:");
    reveal_strlit("dns");
    reveal_strlit("dnswild");
    reveal_strlit("ip");
    reveal_strlit("iprange");
    reveal_strlit("dns:");
    reveal_strlit("dnswild:*.");
    reveal_strlit("*.");
    reveal_strlit("ip:");
    reveal_strlit("iprange:");
    let g = segments_of(d);
    assert(d.host.form() =~= g.kind.tag() + ":"@ + g.value);
    assert(":"@ + d.ports.form() =~= ":ports:"@ + g.ports);
    let base = "net:"@ + d.scheme + "://"@ + d.host.form() + ":"@ + d.ports.form();
    let base2 = "net:"@ + g.scheme + "://"@ + g.kind.tag() + ":"@ + g.value + ":ports:"@ + g.ports;
    assert(base =~= base2);
}

/// The pieces of a decodable destination cannot be mistaken for marks.
proof fn segments_are_ok(d: DestinationView)
    requires
        d.decodable(),
    ensures
        segments_of(d).ok(),
{
    reveal_strlit("+-.");
    reveal_strlit("*.");
    list_lacks_colon(d.ports);
    assert forall|i: int| 0 <= i < d.scheme.len() implies #[trigger] d.scheme[i] != ':' by {
        assert(in_class(d.scheme[i], true, false, true, "+-."@));
        if "+-."@.contains(':') {
            let k = choose|k: int| 0 <= k < 3 && "+-."@[k] == ':';
        }
    }
    match d.host {
        HostView::IpRange(r) => {
            crate::text::decimal_digits(r.prefix as nat);
            let t = range_text(r);
            assert forall|i: int| 0 <= i < t.len() implies #[trigger] t[i] != 'p' by {
                let a = ip_text(r.addr);
                if i < a.len() {
                    assert(is_ip_char(a[i]));
                } else if i > a.len() {
                    assert(t[i] == crate::text::decimal(r.prefix as nat)[i - a.len() - 1]);
                }
            }
        },
        HostView::Ip(a) => {
            let t = ip_text(a);
            assert forall|i: int| 0 <= i < t.len() implies #[trigger] t[i] != 'p' by {
                assert(is_ip_char(t[i]));
            }
        },
        _ => {},
    }
}

/// Reads a host from its kind and value.
fn parse_canonical_host(kind: HostKind, value: &str) -> (r: Option<HostPattern>)
    requires
        kind.fits(value@),
    ensures
        match r {
            Some(h) => host_decodable(h@) && kind_of(h@) == kind && value_of(h@) == value@,
            None => forall|h: HostView|
                host_decodable(h) && #[trigger] kind_of(h) == kind ==> value_of(h) != value@,
        },
{
    match kind {
        HostKind::Dns => match HostPattern::parse(value) {
            Ok(HostPattern::DnsName(n)) => {
                if str_eq(n.as_str(), value) {
                    Some(HostPattern::DnsName(n))
                } else {
                    None
                }
            },
            _ => None,
        },
        HostKind::DnsWild => {
            let c = to_chars(value);
            proof {
                reveal_strlit("*.");
            }
            if !matches_at(&c, 0, "*.") {
                proof {
                    assert forall|h: HostView|
                        host_decodable(h) && #[trigger] kind_of(h)
                            == HostKind::DnsWild implies value_of(h) != value@ by {
                        assert(value_of(h).subrange(0, 2) =~= "*."@);
                    }
                }
                return None;
            }
            let suffix = from_chars(&c, 2, c.len());
            proof {
                assert(value@ =~= "*."@ + suffix@);
                assert forall|h: HostView|
                    #[trigger] kind_of(h) == HostKind::DnsWild && value_of(h)
                        == value@ implies h == HostView::DnsWildcard(suffix@) by {
                    assert(value_of(h).skip(2) =~= h->DnsWildcard_0);
                    assert(value@.skip(2) =~= suffix@);
                }
            }
            match HostPattern::parse(suffix.as_str()) {
                Ok(HostPattern::DnsName(n)) => {
                    if str_eq(n.as_str(), suffix.as_str()) {
                        proof {
                            assert forall|i: int| 0 <= i < n@.len() implies #[trigger] n@[i]
                                != ':' by {
                                assert(value@[i + 2] == n@[i]);
                            }
                        }
                        Some(HostPattern::DnsWildcard(n))
                    } else {
                        None
                    }
                },
                _ => None,
            }
        },
        HostKind::Ip => match parse_ip(value) {
            Some(a) => {
                let t = a.to_text();
                if str_eq(t.as_str(), value) {
                    proof {
                        assert(ip_chars_only(a));
                    }
                    Some(HostPattern::Ip(a))
                } else {
                    None
                }
            },
            None => None,
        },
        HostKind::IpRange => match parse_range(value) {
            Some(x) => {
                let t = x.to_text();
                let only_addr = x.addr.to_text();
                if str_eq(t.as_str(), value) {
                    proof {
                        assert(ip_chars_only(x.addr));
                    }
                    Some(HostPattern::IpRange(x))
                } else {
                    None
                }
            },
            None => None,
        },
    }
}

/// Reads a method allowlist, in its canonical spelling only.
fn parse_method_list(text: &str) -> (r: Option<Vec<String>>)
    ensures
        match r {
            Some(v) => texts(v@).len() > 0 && sorted_texts(texts(v@)) && all_methods_ok(texts(v@))
                && join(texts(v@), ',') == text@,
            None => forall|m: Seq<Seq<char>>|
                m.len() > 0 && sorted_texts(m) && all_methods_ok(m) ==> #[trigger] join(m, ',')
                    != text@,
        },
{
    let c = to_chars(text);
    let v = split_chars(&c, 0, c.len(), ',');
    let ghost t = texts(v@);
    proof {
        assert(c@.subrange(0, c@.len() as int) =~= c@);
        split_pieces(text@, ',');
        join_of_split(text@, ',');
        assert forall|m: Seq<Seq<char>>|
            m.len() > 0 && sorted_texts(m) && all_methods_ok(m) && #[trigger] join(m, ',')
                == text@ implies m == t by {
            methods_lack(m, ',');
            split_of_join(m, ',');
        }
    }
    let mut i: usize = 0;
    while i < v.len()
        invariant
            t == texts(v@),
            t == split(text@, ','),
            i <= v@.len(),
            forall|m: Seq<Seq<char>>|
                m.len() > 0 && sorted_texts(m) && all_methods_ok(m) && #[trigger] join(m, ',')
                    == text@ ==> m == t,
            forall|k: int| 0 <= k < i ==> method_ok(#[trigger] t[k]),
            forall|a: int, b: int|
                #![trigger t[a], t[b]]
                0 <= a < b < i ==> text_lt(t[a], t[b]),
        decreases v@.len() - i,
    {
        let m = to_chars(v[i].as_str());
        proof {
            assert(t[i as int] == m@);
        }
        if m.len() == 0 || !chars_in_class(&m, false, true, true, "!#$%&'*+-.^_`|~") {
            proof {
                assert(!method_ok(t[i as int]));
            }
            return None;
        }
        if i > 0 && !str_lt(v[i - 1].as_str(), v[i].as_str()) {
            proof {
                assert(!text_lt(t[i - 1], t[i as int]));
            }
            return None;
        }
        proof {
            assert forall|a: int, b: int|
                #![trigger t[a], t[b]]
                0 <= a < b < i + 1 implies text_lt(t[a], t[b]) by {
                if b == i && a < i - 1 {
                    assert(t[i - 1] == v@[i - 1]@);
                    crate::text::text_lt_transitive(t[a], t[i - 1], t[i as int]);
                } else if b == i {
                    assert(t[a] == v@[i - 1]@);
                }
            }
        }
        i += 1;
    }
    Some(v)
}

/// Method tokens have neither commas nor colons.
proof fn methods_lack(m: Seq<Seq<char>>, c: char)
    requires
        all_methods_ok(m),
        c == ',' || c == ':',
    ensures
        forall|i: int| 0 <= i < m.len() ==> lacks(#[trigger] m[i], c),
{
    reveal_strlit("!#$%&'*+-.^_`|~");
    let extra = "!#$%&'*+-.^_`|~"@;
    assert(!extra.contains(c)) by {
        if extra.contains(c) {
            let k = choose|k: int| 0 <= k < extra.len() && extra[k] == c;
        }
    }
    assert forall|i: int| 0 <= i < m.len() implies lacks(#[trigger] m[i], c) by {
        assert(method_ok(m[i]));
        assert forall|j: int| 0 <= j < m[i].len() implies #[trigger] m[i][j] != c by {
            assert(in_class(m[i][j], false, true, true, extra));
        }
    }
}

/// A decodable destination with the given pieces, if there is one, has the
/// parts that the pieces are read as.
proof fn parts_agree(d: DestinationView, g: SegmentsView)
    requires
        d.decodable(),
        d.form() == g.glue(),
        g.ok(),
    ensures
        segments_of(d) == g,
{
    form_is_glued(d);
    segments_are_ok(d);
    glue_is_injective(segments_of(d), g);
}

#[verifier::spinoff_prover]
#[verifier::rlimit(80)]
proof fn glue_is_injective(a: SegmentsView, b: SegmentsView)
    requires
        a.ok(),
        b.ok(),
        a.glue() == b.glue(),
    ensures
        a == b,
{
    marks(a);
    marks(b);
    reveal_strlit("://");
    reveal_strlit(":ports:");
    let s = a.glue();
    let ea = 4 + a.scheme.len() as int;
    let eb = 4 + b.scheme.len() as int;
    assert(stands_at(s, ea, "://"@));
    assert(stands_at(s, eb, "://"@));
    assert(s.subrange(ea, ea + 3)[0] == s[ea]);
    assert(s.subrange(eb, eb + 3)[0] == s[eb]);
    if ea < eb {
        assert(s.subrange(4, eb)[ea - 4] == ':');
    }
    if eb < ea {
        assert(s.subrange(4, ea)[eb - 4] == ':');
    }
    assert(a.scheme =~= b.scheme);
    let k0 = ea + 3;
    let ka = k0 + a.kind.tag().len() as int;
    let kb = k0 + b.kind.tag().len() as int;
    tags_differ(a.kind, b.kind);
    tags_differ(b.kind, a.kind);
    if ka < kb {
        assert(s.subrange(k0, kb)[ka - k0] == ':');
    }
    if kb < ka {
        assert(s.subrange(k0, ka)[kb - k0] == ':');
    }
    assert(a.kind == b.kind);
    let v0 = ka + 1;
    let va = v0 + a.value.len() as int;
    let vb = v0 + b.value.len() as int;
    assert(s.subrange(va, va + 7)[0] == ':' && s.subrange(va, va + 7)[1] == 'p');
    assert(s.subrange(vb, vb + 7)[0] == ':' && s.subrange(vb, vb + 7)[1] == 'p');
    if va < vb {
        assert(s.subrange(v0, vb)[va - v0] == s[va]);
        if va + 1 < vb {
            assert(s.subrange(v0, vb)[va + 1 - v0] == s[va + 1]);
        } else {
            assert(s[va + 1] == s.subrange(vb, vb + 7)[0]);
        }
    }
    if vb < va {
        assert(s.subrange(v0, va)[vb - v0] == s[vb]);
        if vb + 1 < va {
            assert(s.subrange(v0, va)[vb + 1 - v0] == s[vb + 1]);
        } else {
            assert(s[vb + 1] == s.subrange(va, va + 7)[0]);
        }
    }
    assert(a.value =~= b.value);
    let q0 = va + 7;
    let qa = q0 + a.ports.len() as int;
    let qb = q0 + b.ports.len() as int;
    if qa < qb {
        assert(a.methods is Some);
        assert(s.subrange(q0, qb)[qa - q0] == ':');
    }
    if qb < qa {
        assert(b.methods is Some);
        assert(s.subrange(q0, qa)[qb - q0] == ':');
    }
    assert(a.ports =~= b.ports);
}

/// The destination that a canonical form is decoded as: the one that it is the
/// form of, among those that their form determines.
pub open spec fn decoded(input: Seq<char>) -> Option<DestinationView> {
    if exists|d: DestinationView| d.decodable() && #[trigger] d.form() == input {
        Some(choose|d: DestinationView| d.decodable() && #[trigger] d.form() == input)
    } else {
        None
    }
}

/// Decoding undoes encoding, for every destination that its form determines and
/// for no other; and what is decoded has exactly the form that was read.
pub proof fn decoding_undoes_encoding(d: DestinationView, input: Seq<char>)
    ensures
        decoded(d.form()) == Some(d) <==> d.decodable(),
        decoded(input) matches Some(e) ==> e.decodable() && e.form() == input,
{
    if d.decodable() {
        let x = choose|x: DestinationView| x.decodable() && #[trigger] x.form() == d.form();
        assert(x.decodable() && x.form() == d.form());
        canonical_form_is_injective(x, d);
    }
}

impl NetworkDestination {
    /// Decodes a canonical form. Nothing but the exact output of the encoder
    /// is accepted, so nothing is dropped and nothing is invented.
    pub fn parse_canonical_form(input: &str) -> (r: Result<NetworkDestination, CanonicalError>)
        ensures
            outcome(r) == (match decoded(input@) {
                Some(d) => Ok(d),
                None => Err(CanonicalErrorView::BadDestination(input@)),
            }),
    {
        match decode(input) {
            Some(x) => {
                proof {
                    decoding_undoes_encoding(x@, input@);
                }
                Ok(x)
            },
            None => Err(CanonicalError::BadDestination(input.to_owned())),
        }
    }
}

impl NetworkDestination {
    /// Whether both are the same destination.
    pub fn same(&self, other: &NetworkDestination) -> (r: bool)
        ensures
            r == (self@ == other@),
    {
        str_eq(self.scheme.as_str(), other.scheme.as_str()) && self.host.same(&other.host)
            && self.ports.same(&other.ports) && same_strings(&self.methods, &other.methods)
    }

    /// Whether the canonical form is decoded as this destination. What the
    /// parsers of names and addresses make of the host decides that.
    pub fn comes_back(&self) -> (r: bool)
        requires
            self@.host.wf(),
        ensures
            r == self@.decodable(),
            r == (decoded(self@.form()) == Some(self@)),
    {
        let form = self.canonical_form();
        proof {
            decoding_undoes_encoding(self@, self@.form());
        }
        match NetworkDestination::parse_canonical_form(form.as_str()) {
            Ok(d) => d.same(self),
            Err(_) => false,
        }
    }
}

fn decode(input: &str) -> (r: Option<NetworkDestination>)
    ensures
        match r {
            Some(d) => d@.decodable() && d@.form() == input@,
            None => forall|d: DestinationView| d.decodable() ==> #[trigger] d.form() != input@,
        },
{
    let g = match take_apart(input) {
        Some(g) => g,
        None => {
            proof {
                assert forall|d: DestinationView| d.decodable() implies #[trigger] d.form()
                    != input@ by {
                    form_is_glued(d);
                    segments_are_ok(d);
                    assert(segments_of(d).glue() != input@);
                }
            }
            return None;
        },
    };
    let ghost gv = g.model();
    proof {
        assert forall|d: DestinationView| d.decodable() && #[trigger] d.form()
            == input@ implies segments_of(d) == gv by {
            parts_agree(d, gv);
        }
    }
    let sc = to_chars(g.scheme.as_str());
    if sc.len() == 0 || !char_in_class(sc[0], true, false, false, "") || !chars_in_class(
        &sc,
        true,
        false,
        true,
        "+-.",
    ) {
        proof {
            assert(!scheme_ok(gv.scheme));
        }
        return None;
    }
    let host = match parse_canonical_host(g.kind, g.value.as_str()) {
        Some(h) => h,
        None => {
            proof {
                assert forall|d: DestinationView| d.decodable() implies #[trigger] d.form()
                    != input@ by {
                    if d.form() == input@ {
                        assert(kind_of(d.host) == gv.kind);
                    }
                }
            }
            return None;
        },
    };
    let ports = match parse_port_list(g.ports.as_str()) {
        Some(p) => p,
        None => {
            proof {
                assert forall|d: DestinationView| d.decodable() implies #[trigger] d.form()
                    != input@ by {
                    if d.form() == input@ {
                        assert(d.ports.list() == gv.ports);
                    }
                }
            }
            return None;
        },
    };
    let methods: Vec<String> = match &g.methods {
        None => Vec::new(),
        Some(list) => {
            if !is_http_family(g.scheme.as_str()) {
                proof {
                    assert forall|d: DestinationView| d.decodable() implies #[trigger] d.form()
                        != input@ by {
                        if d.form() == input@ {
                            assert(segments_of(d).methods is Some);
                        }
                    }
                }
                return None;
            }
            match parse_method_list(list.as_str()) {
                Some(v) => v,
                None => {
                    proof {
                        assert forall|d: DestinationView| d.decodable() implies #[trigger] d.form()
                            != input@ by {
                            if d.form() == input@ {
                                assert(segments_of(d).methods == Some(list@));
                                assert(join(d.methods, ',') == list@);
                            }
                        }
                    }
                    return None;
                },
            }
        },
    };
    let d = NetworkDestination { scheme: g.scheme, host, ports, methods };
    proof {
        form_is_glued(d@);
        assert(segments_of(d@) == gv);
    }
    Some(d)
}

/// The decoder is the exact inverse of the encoder: decodable destinations
/// with the same canonical form are the same destination.
pub proof fn canonical_form_is_injective(a: DestinationView, b: DestinationView)
    requires
        a.decodable(),
        b.decodable(),
        a.form() == b.form(),
    ensures
        a == b,
{
    form_is_glued(a);
    form_is_glued(b);
    segments_are_ok(a);
    segments_are_ok(b);
    glue_is_injective(segments_of(a), segments_of(b));
    list_is_injective(a.ports, b.ports);
    reveal_strlit("*.");
    match (a.host, b.host) {
        (HostView::DnsWildcard(x), HostView::DnsWildcard(y)) => {
            assert(("*."@ + x).skip(2) =~= x);
            assert(("*."@ + y).skip(2) =~= y);
        },
        _ => {},
    }
    if a.methods.len() > 0 {
        methods_lack(a.methods, ',');
        split_of_join(a.methods, ',');
    }
    if b.methods.len() > 0 {
        methods_lack(b.methods, ',');
        split_of_join(b.methods, ',');
    }
    if a.methods.len() == 0 {
        assert(a.methods =~= b.methods);
    }
    assert(a =~= b);
}

fn scheme_is_ok(s: &str) -> (r: bool)
    ensures
        r == scheme_ok(s@),
{
    let c = to_chars(s);
    c.len() > 0 && char_in_class(c[0], true, false, false, "") && chars_in_class(
        &c,
        true,
        false,
        true,
        "+-.",
    )
}

fn methods_are_ok(methods: &Vec<String>) -> (r: bool)
    ensures
        r == all_methods_ok(texts(methods@)),
{
    let ghost t = texts(methods@);
    let mut i: usize = 0;
    while i < methods.len()
        invariant
            i <= methods@.len(),
            t == texts(methods@),
            forall|k: int| 0 <= k < i ==> method_ok(#[trigger] t[k]),
        decreases methods@.len() - i,
    {
        let c = to_chars(methods[i].as_str());
        if c.len() == 0 || !chars_in_class(&c, false, true, true, "!#$%&'*+-.^_`|~") {
            proof {
                assert(!method_ok(t[i as int]));
            }
            return false;
        }
        i += 1;
    }
    true
}

impl NetworkDestination {
    /// Whether a decoded destination is canonical. The host is checked first,
    /// then the scheme, then the methods; the ports are canonical by
    /// construction. What passes with a DNS name and a scheme is what its
    /// canonical form is decoded as.
    pub fn validate(&self) -> (r: Result<(), CanonicalError>)
        requires
            self@.host.wf(),
        ensures
            unit_outcome(r) == (match self@.host.reads_back() {
                Err(e) => Err(e),
                Ok(h) => if h != self@.host {
                    Err(CanonicalErrorView::InvalidEncoding("host must already be canonical"@))
                } else if self@.scheme.len() > 0 && !scheme_ok(self@.scheme) {
                    Err(CanonicalErrorView::InvalidEncoding("scheme"@))
                } else if !all_methods_ok(self@.methods) || (!http_family(self@.scheme)
                    && self@.methods.len() > 0) {
                    Err(CanonicalErrorView::InvalidEncoding("method scope"@))
                } else {
                    Ok(())
                },
            }),
            r is Ok && self@.host is DnsName && self@.scheme.len() > 0 && self@.ports.listable()
                && sorted_texts(self@.methods) ==> self@.decodable(),
    {
        if let Err(e) = self.host.validate() {
            return Err(e);
        }
        if !self.scheme.as_str().is_empty() && !scheme_is_ok(self.scheme.as_str()) {
            return Err(CanonicalError::InvalidEncoding("scheme"));
        }
        if !methods_are_ok(&self.methods) || (!is_http_family(self.scheme.as_str())
            && self.methods.len() > 0) {
            return Err(CanonicalError::InvalidEncoding("method scope"));
        }
        Ok(())
    }
}

/// A destination covers another exactly if it has the same scheme or none, its
/// host covers the other's host, it has all the other's ports, and, where
/// methods apply to both, it allows all the other's methods: a list without
/// methods allows every method, and is covered by no list with some.
pub proof fn destinations_cover_in_every_part(child: DestinationView, parent: DestinationView)
    requires
        child.ports.wf(),
        parent.ports.wf(),
        !child.ports.any,
    ensures
        child.subset(parent) is Ok <==> {
            &&& parent.scheme.len() == 0 || parent.scheme == child.scheme
            &&& child.host.subset(parent.host) is Ok
            &&& forall|p: int| #[trigger] child.ports.has(p) ==> parent.ports.has(p)
            &&& http_family(child.scheme) && http_family(parent.scheme) && parent.methods.len() > 0
                ==> child.methods.len() > 0 && forall|i: int|
                0 <= i < child.methods.len() ==> parent.methods.contains(
                    #[trigger] child.methods[i],
                )
        },
{
    within_is_inclusion(child.ports, parent.ports);
}

/// A destination is what its URL says: the scheme in lower case, the host, an
/// address or what the name is as a host, and the port. A URL has one exactly if
/// it has a scheme, a host that can be read and a port.
pub proof fn destinations_are_what_the_url_says(input: Seq<char>)
    ensures
        url_of_text(input) is Err ==> destination_of(input) is Err,
        url_of_text(input) matches Ok(u) ==> {
            &&& destination_of(input) matches Ok(d) ==> {
                &&& d.0 == lowercase(u.scheme) && d.0.len() > 0
                &&& u.port == Some(d.2)
                &&& u.host is Some
                &&& u.host matches Some(UrlHostView::Ip(a)) ==> d.1 == HostView::Ip(a)
                &&& u.host matches Some(UrlHostView::Domain(n)) ==> host_of(n) == Ok::<
                    HostView,
                    CanonicalErrorView,
                >(d.1)
            }
            &&& lowercase(u.scheme).len() > 0 && u.port is Some && (u.host matches Some(h) && (
            h matches UrlHostView::Domain(n) ==> host_of(n) is Ok)) ==> destination_of(input) is Ok
        },
{
}

} // verus!
