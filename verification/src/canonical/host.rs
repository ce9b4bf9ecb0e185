//! Hosts of network destinations: DNS names and wildcards, addresses and
//! ranges.

use super::{outcome, unit_outcome, CanonicalError, CanonicalErrorView};
use crate::ip::{
    classify_ip, classify_net, covered_range_covers_less, ip_class, ip_of_text, ip_text,
    parse_ip, parse_range, range_class, range_of_text, range_text, IpAddress, IpRange,
    NetworkClass,
};
use crate::text::{
    byte_len, chars_lack, concat, from_chars, lacks, lowercase, matches_at, split, split_chars,
    stands_at, str_byte_len, str_eq, surround, texts, to_chars,
};
use crate::url_parts::{parse_url, url_of_text, UrlHost, UrlHostView};
use vstd::prelude::*;

verus! {

/// A normalized host. DNS names and addresses are distinct and never compare
/// equal.
#[derive(Debug, PartialEq, Eq, PartialOrd, Ord, Hash)]
pub enum HostPattern {
    /// A lower-cased, IDNA-encoded DNS name without a trailing dot.
    DnsName(String),
    /// `*.example.com`, held as the suffix `example.com`. It never matches the
    /// suffix itself.
    DnsWildcard(String),
    Ip(IpAddress),
    IpRange(IpRange),
}

/// The model of a `HostPattern`.
pub enum HostView {
    DnsName(Seq<char>),
    DnsWildcard(Seq<char>),
    Ip(IpAddress),
    IpRange(IpRange),
}

impl View for HostPattern {
    type V = HostView;

    open spec fn view(&self) -> HostView {
        match *self {
            HostPattern::DnsName(n) => HostView::DnsName(n@),
            HostPattern::DnsWildcard(n) => HostView::DnsWildcard(n@),
            HostPattern::Ip(a) => HostView::Ip(a),
            HostPattern::IpRange(r) => HostView::IpRange(r),
        }
    }
}

impl Clone for HostPattern {
    fn clone(&self) -> (r: HostPattern)
        ensures
            r@ == self@,
    {
        match self {
            HostPattern::DnsName(n) => HostPattern::DnsName(n.clone()),
            HostPattern::DnsWildcard(n) => HostPattern::DnsWildcard(n.clone()),
            HostPattern::Ip(a) => HostPattern::Ip(*a),
            HostPattern::IpRange(r) => HostPattern::IpRange(*r),
        }
    }
}

/// The text without one trailing dot.
pub open spec fn without_dot(s: Seq<char>) -> Seq<char> {
    if s.len() > 0 && s.last() == '.' {
        s.drop_last()
    } else {
        s
    }
}

/// What a text is as a DNS name: the domain that a URL with this host has.
pub open spec fn dns_name(value: Seq<char>) -> Result<Seq<char>, CanonicalErrorView> {
    let trimmed = without_dot(lowercase(value));
    let bad = Err(CanonicalErrorView::BadDestination(value));
    if trimmed.len() == 0 || byte_len(trimmed) > 253 {
        bad
    } else {
        match url_of_text("http://"@ + trimmed + "/"@) {
            Ok(u) => match u.host {
                Some(UrlHostView::Domain(d)) => if ip_of_text(d) is Some {
                    bad
                } else {
                    Ok(d)
                },
                _ => bad,
            },
            Err(_) => bad,
        }
    }
}

/// What a suffix is as a wildcard: at least two labels, none of them empty,
/// and no further asterisk.
pub open spec fn dns_wildcard(suffix: Seq<char>) -> Result<Seq<char>, CanonicalErrorView> {
    if suffix.len() == 0 || !lacks(suffix, '*') || split(suffix, '.').len() < 2 || split(
        suffix,
        '.',
    ).contains(Seq::<char>::empty()) {
        Err(CanonicalErrorView::AmbiguousWildcard("*."@ + suffix))
    } else {
        dns_name(suffix)
    }
}

/// What a text is as a host.
pub open spec fn host_of(s: Seq<char>) -> Result<HostView, CanonicalErrorView> {
    if s.len() == 0 {
        Err(CanonicalErrorView::Empty)
    } else if byte_len(s) > 253 {
        Err(CanonicalErrorView::TooLong)
    } else if stands_at(s, 0, "*."@) {
        match dns_wildcard(s.skip(2)) {
            Ok(n) => Ok(HostView::DnsWildcard(n)),
            Err(e) => Err(e),
        }
    } else if !lacks(s, '*') {
        Err(CanonicalErrorView::AmbiguousWildcard(s))
    } else if let Some(a) = ip_of_text(s) {
        Ok(HostView::Ip(a))
    } else if let Some(r) = range_of_text(s) {
        if r.prefix == r.addr.width() {
            Ok(HostView::Ip(r.addr))
        } else {
            Ok(HostView::IpRange(r))
        }
    } else {
        match dns_name(s) {
            Ok(n) => Ok(HostView::DnsName(n)),
            Err(e) => Err(e),
        }
    }
}

/// The name stands exactly one label below the suffix.
pub open spec fn one_label_below(name: Seq<char>, suffix: Seq<char>) -> bool {
    let cut = name.len() - suffix.len() - 1;
    &&& cut > 0
    &&& name.skip(cut + 1) == suffix
    &&& name[cut] == '.'
    &&& lacks(name.take(cut), '.')
}

impl HostView {
    /// Ranges have a prefix no longer than their address.
    pub open spec fn wf(self) -> bool {
        self matches HostView::IpRange(r) ==> r.wf()
    }

    /// Whether the child is covered by the parent.
    pub open spec fn subset(self, parent: HostView) -> Result<(), CanonicalErrorView> {
        let covered = match (self, parent) {
            (HostView::DnsName(c), HostView::DnsName(p)) => Some(c == p),
            (HostView::DnsName(c), HostView::DnsWildcard(p)) => Some(one_label_below(c, p)),
            (HostView::DnsWildcard(c), HostView::DnsWildcard(p)) => Some(c == p),
            (HostView::Ip(c), HostView::Ip(p)) => Some(c == p),
            (HostView::Ip(c), HostView::IpRange(p)) => Some(p.covers(c)),
            (HostView::IpRange(c), HostView::IpRange(p)) => Some(p.covers_range(c)),
            _ => None,
        };
        match covered {
            None => Err(CanonicalErrorView::DnsIpMix),
            Some(false) => Err(CanonicalErrorView::Incomparable),
            Some(true) => Ok(()),
        }
    }

    /// The class for policy decisions.
    pub open spec fn class(self) -> NetworkClass {
        match self {
            HostView::DnsName(_) | HostView::DnsWildcard(_) => NetworkClass::Dns,
            HostView::Ip(a) => ip_class(a),
            HostView::IpRange(r) => range_class(r),
        }
    }

    /// The canonical form.
    pub open spec fn form(self) -> Seq<char> {
        match self {
            HostView::DnsName(n) => "dns:"@ + n,
            HostView::DnsWildcard(s) => "dnswild:*."@ + s,
            HostView::Ip(a) => "ip:"@ + ip_text(a),
            HostView::IpRange(r) => "iprange:"@ + range_text(r),
        }
    }

    /// A name, or the suffix of names, holds no colon.
    pub open spec fn lacks_colon(self) -> bool {
        match self {
            HostView::DnsName(n) => lacks(n, ':'),
            HostView::DnsWildcard(s) => lacks(s, ':'),
            _ => true,
        }
    }

    /// The host that its own text is read as.
    pub open spec fn reads_back(self) -> Result<HostView, CanonicalErrorView> {
        match self {
            HostView::DnsName(n) => host_of(n),
            HostView::DnsWildcard(s) => host_of("*."@ + s),
            HostView::Ip(_) => Ok(self),
            HostView::IpRange(r) => host_of(range_text(r)),
        }
    }
}

fn parse_dns(value: &str) -> (r: Result<String, CanonicalError>)
    ensures
        super::text_outcome(r) == dns_name(value@),
        r matches Ok(n) ==> lacks(n@, ':'),
{
    let lower = value.to_lowercase();
    let c = to_chars(lower.as_str());
    let n: usize = c.len();
    let end: usize = if n > 0 && c[n - 1] == '.' {
        n - 1
    } else {
        n
    };
    let trimmed = from_chars(&c, 0, end);
    proof {
        assert(trimmed@ =~= without_dot(lowercase(value@)));
    }
    if trimmed.as_str().is_empty() || str_byte_len(trimmed.as_str()) > 253 {
        return Err(CanonicalError::BadDestination(value.to_owned()));
    }
    let probe = surround("http://", trimmed.as_str(), "/");
    match parse_url(probe.as_str()) {
        Ok(u) => match u.host {
            Some(UrlHost::Domain(d)) => {
                if parse_ip(d.as_str()).is_some() {
                    Err(CanonicalError::BadDestination(value.to_owned()))
                } else {
                    Ok(d)
                }
            },
            _ => Err(CanonicalError::BadDestination(value.to_owned())),
        },
        Err(_) => Err(CanonicalError::BadDestination(value.to_owned())),
    }
}

fn parse_wildcard(suffix: &str) -> (r: Result<String, CanonicalError>)
    ensures
        super::text_outcome(r) == dns_wildcard(suffix@),
        r matches Ok(n) ==> lacks(n@, ':'),
{
    let c = to_chars(suffix);
    let labels = split_chars(&c, 0, c.len(), '.');
    proof {
        assert(c@.subrange(0, c@.len() as int) =~= suffix@);
        assert(""@ =~= Seq::<char>::empty()) by {
            reveal_strlit("");
        }
        assert(texts(labels@).len() == labels@.len());
    }
    if suffix.is_empty() || !chars_lack(&c, '*') || labels.len() < 2 || crate::text::contains_str(
        &labels,
        "",
    ) {
        return Err(CanonicalError::AmbiguousWildcard(concat("*.", suffix)));
    }
    parse_dns(suffix)
}

impl HostPattern {
    /// Reads a host.
    pub fn parse(value: &str) -> (r: Result<HostPattern, CanonicalError>)
        ensures
            outcome(r) == host_of(value@),
            r matches Ok(h) ==> h@.wf() && h@.lacks_colon(),
    {
        if value.is_empty() {
            return Err(CanonicalError::Empty);
        }
        if str_byte_len(value) > 253 {
            return Err(CanonicalError::TooLong);
        }
        let c = to_chars(value);
        if matches_at(&c, 0, "*.") {
            proof {
                reveal_strlit("*.");
            }
            let suffix = from_chars(&c, 2, c.len());
            proof {
                assert(suffix@ =~= value@.skip(2));
            }
            return match parse_wildcard(suffix.as_str()) {
                Ok(n) => Ok(HostPattern::DnsWildcard(n)),
                Err(e) => Err(e),
            };
        }
        if !chars_lack(&c, '*') {
            return Err(CanonicalError::AmbiguousWildcard(value.to_owned()));
        }
        if let Some(a) = parse_ip(value) {
            return Ok(HostPattern::Ip(a));
        }
        if let Some(r) = parse_range(value) {
            let width: u8 = match r.addr {
                IpAddress::V4(_) => 32,
                IpAddress::V6(_) => 128,
            };
            if r.prefix == width {
                return Ok(HostPattern::Ip(r.addr));
            }
            return Ok(HostPattern::IpRange(r));
        }
        match parse_dns(value) {
            Ok(n) => Ok(HostPattern::DnsName(n)),
            Err(e) => Err(e),
        }
    }

    /// Whether this host is covered by `parent`. DNS names never match
    /// addresses.
    pub fn is_subset_of(&self, parent: &HostPattern) -> (r: Result<(), CanonicalError>)
        requires
            parent@.wf(),
        ensures
            unit_outcome(r) == self@.subset(parent@),
    {
        let covered = match (self, parent) {
            (HostPattern::DnsName(c), HostPattern::DnsName(p)) => str_eq(c.as_str(), p.as_str()),
            (HostPattern::DnsName(c), HostPattern::DnsWildcard(p)) => is_one_label_below(
                c.as_str(),
                p.as_str(),
            ),
            (HostPattern::DnsWildcard(c), HostPattern::DnsWildcard(p)) => str_eq(
                c.as_str(),
                p.as_str(),
            ),
            (HostPattern::Ip(c), HostPattern::Ip(p)) => *c == *p,
            (HostPattern::Ip(c), HostPattern::IpRange(p)) => p.contains(c),
            (HostPattern::IpRange(c), HostPattern::IpRange(p)) => p.contains_range(c),
            _ => {
                return Err(CanonicalError::DnsIpMix);
            },
        };
        if covered {
            Ok(())
        } else {
            Err(CanonicalError::Incomparable)
        }
    }

    /// Classifies private, loopback and other special networks. A range counts
    /// as its least-trusted possible address.
    pub fn network_class(&self) -> (r: NetworkClass)
        requires
            self@.wf(),
        ensures
            r == self@.class(),
    {
        match self {
            HostPattern::DnsName(_) | HostPattern::DnsWildcard(_) => NetworkClass::Dns,
            HostPattern::Ip(a) => classify_ip(*a),
            HostPattern::IpRange(r) => classify_net(*r),
        }
    }

    /// The canonical form.
    pub fn canonical_form(&self) -> (r: String)
        requires
            self@.wf(),
        ensures
            r@ == self@.form(),
    {
        match self {
            HostPattern::DnsName(n) => concat("dns:", n.as_str()),
            HostPattern::DnsWildcard(s) => concat("dnswild:*.", s.as_str()),
            HostPattern::Ip(a) => concat("ip:", a.to_text().as_str()),
            HostPattern::IpRange(r) => concat("iprange:", r.to_text().as_str()),
        }
    }

    /// Refuses a decoded host that is not in its canonical form.
    pub fn validate(&self) -> (r: Result<(), CanonicalError>)
        requires
            self@.wf(),
        ensures
            unit_outcome(r) == (match self@.reads_back() {
                Err(e) => Err(e),
                Ok(h) => if h == self@ {
                    Ok(())
                } else {
                    Err(
                        CanonicalErrorView::InvalidEncoding("host must already be canonical"@),
                    )
                },
            }),
            r is Ok ==> self@.lacks_colon(),
    {
        let parsed = match self {
            HostPattern::DnsName(n) => HostPattern::parse(n.as_str()),
            HostPattern::DnsWildcard(s) => HostPattern::parse(concat("*.", s.as_str()).as_str()),
            HostPattern::Ip(_) => {
                return Ok(());
            },
            HostPattern::IpRange(r) => HostPattern::parse(r.to_text().as_str()),
        };
        match parsed {
            Err(e) => Err(e),
            Ok(h) => {
                if h.same(self) {
                    Ok(())
                } else {
                    Err(CanonicalError::InvalidEncoding("host must already be canonical"))
                }
            },
        }
    }

    /// Whether both are the same host.
    pub fn same(&self, other: &HostPattern) -> (r: bool)
        ensures
            r == (self@ == other@),
    {
        match (self, other) {
            (HostPattern::DnsName(a), HostPattern::DnsName(b)) => str_eq(a.as_str(), b.as_str()),
            (HostPattern::DnsWildcard(a), HostPattern::DnsWildcard(b)) => str_eq(
                a.as_str(),
                b.as_str(),
            ),
            (HostPattern::Ip(a), HostPattern::Ip(b)) => *a == *b,
            (HostPattern::IpRange(a), HostPattern::IpRange(b)) => *a == *b,
            _ => false,
        }
    }
}

fn is_one_label_below(name: &str, suffix: &str) -> (r: bool)
    ensures
        r == one_label_below(name@, suffix@),
{
    let n = to_chars(name);
    let s = to_chars(suffix);
    if n.len() < 2 || n.len() - 2 < s.len() {
        return false;
    }
    let cut: usize = n.len() - s.len() - 1;
    let tail = from_chars(&n, cut + 1, n.len());
    let head = to_chars(from_chars(&n, 0, cut).as_str());
    proof {
        assert(tail@ =~= name@.skip(cut + 1));
        assert(head@ =~= name@.take(cut as int));
    }
    str_eq(tail.as_str(), suffix) && n[cut] == '.' && chars_lack(&head, '.')
}

/// A host covers itself.
pub proof fn host_subset_reflexive(h: HostView)
    ensures
        h.subset(h) == Ok::<(), CanonicalErrorView>(()),
{
}

/// Covering is transitive.
pub proof fn host_subset_transitive(a: HostView, b: HostView, c: HostView)
    requires
        a.wf(),
        b.wf(),
        c.wf(),
        a.subset(b) is Ok,
        b.subset(c) is Ok,
    ensures
        a.subset(c) is Ok,
{
    match (a, b, c) {
        (HostView::Ip(x), HostView::IpRange(y), HostView::IpRange(z)) => {
            covered_range_covers_less(z, y, x);
        },
        (HostView::IpRange(x), HostView::IpRange(y), HostView::IpRange(z)) => {
            covered_range_covers_less(z, y, x.addr);
        },
        _ => {},
    }
}

/// DNS names and addresses are never comparable, in either direction.
pub proof fn dns_and_ip_are_incomparable(dns: HostView, ip: HostView)
    requires
        dns is DnsName || dns is DnsWildcard,
        ip is Ip || ip is IpRange,
    ensures
        dns.subset(ip) == Err::<(), CanonicalErrorView>(CanonicalErrorView::DnsIpMix),
        ip.subset(dns) == Err::<(), CanonicalErrorView>(CanonicalErrorView::DnsIpMix),
{
}

/// A wildcard covers neither its own suffix nor names two labels below it.
pub proof fn wildcard_covers_one_label(name: Seq<char>, suffix: Seq<char>)
    ensures
        HostView::DnsName(suffix).subset(HostView::DnsWildcard(suffix)) is Err,
        HostView::DnsName(name).subset(HostView::DnsWildcard(suffix)) is Ok ==> exists|
            label: Seq<char>,
        |
            label.len() > 0 && lacks(label, '.') && name == #[trigger] label.push('.') + suffix,
{
    if one_label_below(name, suffix) {
        let cut = name.len() - suffix.len() - 1;
        let label = name.take(cut);
        assert(name =~= label.push('.') + suffix);
    }
}

/// What a host covers, by the kinds of the two: a name or an address covers
/// itself, a wildcard covers itself and the names with one more label, and a
/// range covers the addresses in it and the ranges that hold no others. Nothing
/// else is covered.
pub proof fn hosts_cover_what_lies_in_them(child: HostView, parent: HostView)
    ensures
        child.subset(parent) is Ok <==> match parent {
            HostView::DnsName(p) => child == HostView::DnsName(p),
            HostView::DnsWildcard(p) => child == HostView::DnsWildcard(p) || (child matches
                HostView::DnsName(c) && exists|label: Seq<char>|
                label.len() > 0 && lacks(label, '.') && c == #[trigger] label.push('.') + p),
            HostView::Ip(p) => child == HostView::Ip(p),
            HostView::IpRange(p) => match child {
                HostView::Ip(c) => p.covers(c),
                HostView::IpRange(c) => p.covers_range(c),
                _ => false,
            },
        },
{
    if let (HostView::DnsName(c), HostView::DnsWildcard(p)) = (child, parent) {
        wildcard_covers_one_label(c, p);
        if exists|label: Seq<char>|
            label.len() > 0 && lacks(label, '.') && c == #[trigger] label.push('.') + p {
            let label = choose|label: Seq<char>|
                label.len() > 0 && lacks(label, '.') && c == #[trigger] label.push('.') + p;
            let cut = c.len() - p.len() - 1;
            assert(cut == label.len());
            assert(c.take(cut) =~= label);
            assert(c.skip(cut + 1) =~= p);
            assert(c[cut] == '.');
        }
    }
}

/// A host is read as what it is. Only an asterisk and a dot at the very start
/// make a wildcard, which has at least two labels behind them, and no other
/// asterisk is admitted. What writes an address is that address and no name; a
/// range of one address is that address; any other range is that range; and
/// what is left is a name, which never writes an address itself.
pub proof fn hosts_are_read_as_what_they_are(s: Seq<char>)
    ensures
        host_of(s) matches Ok(h) ==> {
            &&& 0 < s.len() && byte_len(s) <= 253
            &&& h is DnsWildcard <==> s.len() >= 2 && s[0] == '*' && s[1] == '.'
            &&& forall|i: int| 0 <= i < s.len() && #[trigger] s[i] == '*' ==> i == 0 && h
                is DnsWildcard
            &&& h matches HostView::Ip(a) ==> ip_of_text(s) == Some(a) || range_of_text(s) == Some(
                (IpRange { addr: a, prefix: a.width() as u8 }),
            )
            &&& h matches HostView::IpRange(r) ==> ip_of_text(s) is None && range_of_text(s) == Some(
                r,
            ) && r.prefix != r.addr.width()
            &&& h matches HostView::DnsName(n) ==> ip_of_text(s) is None && range_of_text(s) is None
                && ip_of_text(n) is None
            &&& h matches HostView::DnsWildcard(n) ==> split(s.skip(2), '.').len() >= 2
                && ip_of_text(n) is None
        },
        ip_of_text(s) matches Some(a) ==> (0 < s.len() && byte_len(s) <= 253 && lacks(s, '*')
            ==> host_of(s) == Ok::<HostView, CanonicalErrorView>(HostView::Ip(a))),
{
    reveal_strlit("*.");
    assert("*."@[0] == '*' && "*."@[1] == '.' && "*."@.len() == 2);
    if stands_at(s, 0, "*."@) {
        assert(s.subrange(0, 2)[0] == s[0] && s.subrange(0, 2)[1] == s[1]);
        let rest = s.skip(2);
        if host_of(s) is Ok {
            assert forall|i: int| 0 <= i < s.len() && #[trigger] s[i] == '*' implies i == 0 by {
                if i >= 2 {
                    assert(rest[i - 2] == s[i]);
                }
            }
        }
    } else if s.len() >= 2 && s[0] == '*' && s[1] == '.' {
        assert(s.subrange(0, 2) =~= "*."@);
    }
}

} // verus!
