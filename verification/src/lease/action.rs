//! The canonical resources of one action, and the single-use lease that a
//! human's approval of it mints.

use super::session::{KernelKeys, RegistryView, SessionRegistry};
use super::{
    lease_result, lease_unit, LeaseDocument, LeaseError, LeaseErrorView, LeaseLimits, LeaseView,
    LEASE_PROTOCOL_VERSION,
};
use crate::budget::{Budget, BudgetDimension, BudgetLedger, LedgerView};
use crate::canonical::destination::{destination_of, DestinationView, NetworkDestination};
use crate::canonical::host::{host_of, HostPattern};
use crate::canonical::path::{
    canonicalize, grant_views, refused, CanonicalPath, PathGrant, PathGrantView, PathResolver,
    PathRights, PathView,
};
use crate::canonical::ports::PortsView;
use crate::canonical::resource::{
    exact_pin_of, secret_ref, tool_name, wire_effects, EffectClass, SecretRef, ToolName,
};
use crate::canonical::scope::{
    copy_destinations, copy_effects, destination_views, scopes_are_compared_item_by_item,
    ResourceScope, ScopeView,
};
use crate::ids::{random_uuid, uuid_text, uuid_to_text};
use crate::ip::{ip_of_text, parse_ip, IpAddress};
use crate::json::{
    canonical, canonical_iff_integral, integral, integral_none, integral_push, no_fields,
    no_members, object, put, string, Json, JsonView,
};
use crate::keys::{hex_signature, sign_hex, signed_by, verify_hex, SigningKey, VerifyingKey};
use crate::nonce::{presented, saturating_sub, saturating_sum, NonceStore, NoncesView};
use crate::ordered::{lookup, TextSet};
use crate::lists::views;
use crate::pi_boundary::envelope::{
    EnvelopeView, NetworkView, PathResourceView, SecretView,
};
use crate::pi_boundary::{canonical_json, ActionEnvelope, EffectClasses, NetworkResource};
use crate::sorting::{deduped, sort_texts, text_set, text_set_members};
use crate::text::{
    concat, debug_string, debug_text, decimal, from_chars, lacks, chars_lack, str_eq, surround,
    texts, to_chars, u64_text,
};
use crate::version::{
    requirement_matches, requirement_of_text, version_result, Version,
};
use vstd::prelude::*;
use vstd::utf8::encode_utf8;

verus! {

/// The text writes an IPv6 address.
pub open spec fn is_v6(s: Seq<char>) -> bool {
    ip_of_text(s) matches Some(IpAddress::V6(_))
}

/// The text holds a character that would end or change a URL's authority.
pub open spec fn breaks_authority(s: Seq<char>) -> bool {
    !(lacks(s, '/') && lacks(s, '?') && lacks(s, '#') && lacks(s, '@'))
}

/// The host as it goes into a URL, or why it does not. A colon is admitted
/// only in an IPv6 address, which goes into brackets.
pub open spec fn url_host(host: Seq<char>) -> Result<Seq<char>, Seq<char>> {
    let named = "network host "@ + debug_text(host);
    if host.len() == 0 {
        Err("network host is empty"@)
    } else if breaks_authority(host) {
        Err(named + " contains a reserved character"@)
    } else if host[0] == '[' {
        if host.len() < 2 || host.last() != ']' {
            Err(named + " has an unbalanced bracket"@)
        } else if !is_v6(host.subrange(1, host.len() - 1)) {
            Err(named + " is not a valid bracketed IPv6 literal"@)
        } else {
            Ok(host)
        }
    } else if !lacks(host, ':') {
        if is_v6(host) {
            Ok("["@ + host + "]"@)
        } else {
            Err(named + " contains ':' but is not an IPv6 literal"@)
        }
    } else {
        Ok(host)
    }
}

/// The host without the brackets around it.
pub open spec fn unbracketed(host: Seq<char>) -> Seq<char> {
    if host.len() >= 2 && host[0] == '[' && host.last() == ']' {
        host.subrange(1, host.len() - 1)
    } else {
        host
    }
}

/// A destination with one host and one port.
pub open spec fn endpoint(scheme: Seq<char>, host: crate::canonical::host::HostView, port: u16) -> DestinationView {
    DestinationView {
        scheme,
        host,
        ports: PortsView { ranges: seq![(port, port)], any: false },
        methods: Seq::empty(),
    }
}

/// The destination that a resource declares, or why it is refused: what the
/// URL says has to be exactly what was declared.
pub open spec fn declared_destination(n: NetworkView) -> Result<DestinationView, Seq<char>> {
    match url_host(n.host) {
        Err(t) => Err(t),
        Ok(host) => match destination_of(
            n.scheme + "://"@ + host + ":"@ + decimal(n.port as nat),
        ) {
            Err(e) => Err(e.message()),
            Ok((scheme, h, port)) => match host_of(unbracketed(n.host)) {
                Err(e) => Err(e.message()),
                Ok(expected) => if h != expected {
                    Err("network host "@ + debug_text(n.host) + " parsed as "@ + h.form())
                } else if port != n.port {
                    Err("network port "@ + decimal(n.port as nat) + " did not survive parsing"@)
                } else {
                    Ok(endpoint(scheme, h, port))
                },
            },
        },
    }
}

fn named_host(host: &str, what: &str) -> (r: String)
    ensures
        r@ == "network host "@ + debug_text(host@) + what@,
{
    surround("network host ", debug_string(host).as_str(), what)
}

fn writes_v6(s: &str) -> (r: bool)
    ensures
        r == is_v6(s@),
{
    match parse_ip(s) {
        Some(IpAddress::V6(_)) => true,
        _ => false,
    }
}

fn validate_network_host(host: &str) -> (r: Result<String, String>)
    ensures
        (match r {
            Ok(h) => Ok::<Seq<char>, Seq<char>>(h@),
            Err(t) => Err(t@),
        }) == url_host(host@),
{
    if host.is_empty() {
        return Err("network host is empty".to_owned());
    }
    let c = to_chars(host);
    if !(chars_lack(&c, '/') && chars_lack(&c, '?') && chars_lack(&c, '#') && chars_lack(&c, '@')) {
        return Err(named_host(host, " contains a reserved character"));
    }
    let n: usize = c.len();
    if c[0] == '[' {
        if n < 2 || c[n - 1] != ']' {
            return Err(named_host(host, " has an unbalanced bracket"));
        }
        let inner = from_chars(&c, 1, n - 1);
        if !writes_v6(inner.as_str()) {
            return Err(named_host(host, " is not a valid bracketed IPv6 literal"));
        }
        return Ok(host.to_owned());
    }
    if !chars_lack(&c, ':') {
        if !writes_v6(host) {
            return Err(named_host(host, " contains ':' but is not an IPv6 literal"));
        }
        return Ok(surround("[", host, "]"));
    }
    Ok(host.to_owned())
}

fn without_brackets(host: &str) -> (r: String)
    ensures
        r@ == unbracketed(host@),
{
    let c = to_chars(host);
    let n: usize = c.len();
    if n >= 2 && c[0] == '[' && c[n - 1] == ']' {
        from_chars(&c, 1, n - 1)
    } else {
        host.to_owned()
    }
}

fn destination_from_resource(nr: &NetworkResource) -> (r: Result<NetworkDestination, String>)
    ensures
        (match r {
            Ok(d) => Ok::<DestinationView, Seq<char>>(d@),
            Err(t) => Err(t@),
        }) == declared_destination(nr@),
        r matches Ok(d) ==> d@.wf(),
{
    let host = match validate_network_host(nr.host.as_str()) {
        Ok(h) => h,
        Err(t) => {
            return Err(t);
        },
    };
    let mut url = surround(nr.scheme.as_str(), "://", host.as_str());
    url.append(":");
    url.append(u64_text(nr.port as u64).as_str());
    let none: Vec<String> = Vec::new();
    let dest = match NetworkDestination::parse(url.as_str(), &none) {
        Ok(d) => d,
        Err(e) => {
            return Err(e.message());
        },
    };
    let expected = match HostPattern::parse(without_brackets(nr.host.as_str()).as_str()) {
        Ok(h) => h,
        Err(e) => {
            return Err(e.message());
        },
    };
    if !dest.host.same(&expected) {
        let mut t = named_host(nr.host.as_str(), " parsed as ");
        t.append(dest.host.canonical_form().as_str());
        return Err(t);
    }
    let ranges = dest.ports.ranges();
    if ranges[0].0 != nr.port {
        return Err(
            surround("network port ", u64_text(nr.port as u64).as_str(), " did not survive parsing"),
        );
    }
    proof {
        let m = dest@.methods;
        if m.len() > 0 {
            assert(m.contains(m[0]));
        }
        assert(m =~= Seq::<Seq<char>>::empty());
    }
    Ok(dest)
}

/// The canonical resources of an action.
#[derive(Debug)]
pub struct CanonicalAction {
    pub digest: String,
    pub tool_name: ToolName,
    pub tool_version: Version,
    pub paths: Vec<CanonicalPath>,
    /// The rights on each path.
    pub path_rights: Vec<PathRights>,
    pub destinations: Vec<NetworkDestination>,
    pub secrets: Vec<SecretRef>,
    pub effects: Vec<EffectClass>,
}

/// The model of a `CanonicalAction`.
pub struct ActionView {
    pub digest: Seq<char>,
    pub tool_name: Seq<char>,
    pub tool_version: Seq<char>,
    pub paths: Seq<PathView>,
    pub path_rights: Seq<PathRights>,
    pub destinations: Seq<DestinationView>,
    pub secrets: Seq<Seq<char>>,
    pub effects: Seq<EffectClass>,
}

impl View for CanonicalAction {
    type V = ActionView;

    open spec fn view(&self) -> ActionView {
        ActionView {
            digest: self.digest@,
            tool_name: self.tool_name@,
            tool_version: self.tool_version@,
            paths: views(self.paths@),
            path_rights: self.path_rights@,
            destinations: destination_views(self.destinations@),
            secrets: views(self.secrets@),
            effects: self.effects@,
        }
    }
}

/// What a resolver made of each path.
pub type Resolutions = Seq<Result<Seq<char>, Seq<char>>>;

/// The canonical form of one declared path.
pub open spec fn one_path(
    p: PathResourceView,
    resolved: Result<Seq<char>, Seq<char>>,
    fold: bool,
) -> Result<PathView, LeaseErrorView> {
    match refused(p.path) {
        Some(e) => Err(LeaseErrorView::Canonical(e)),
        None => match canonicalize(p.path, resolved, fold) {
            Ok(v) => Ok(v),
            Err(e) => Err(LeaseErrorView::Canonical(e)),
        },
    }
}

/// The declared rights as the lease engine knows them: writing implies
/// reading.
pub open spec fn lease_rights(r: crate::pi_boundary::PathRights) -> PathRights {
    match r {
        crate::pi_boundary::PathRights::Read => PathRights { read: true, write: false },
        crate::pi_boundary::PathRights::Write => PathRights { read: true, write: true },
    }
}

/// The canonical paths from position `i` on, behind `done`.
pub open spec fn paths_from(
    paths: Seq<PathResourceView>,
    resolved: Resolutions,
    fold: bool,
    i: int,
    done: Seq<PathView>,
) -> Result<Seq<PathView>, LeaseErrorView>
    decreases paths.len() - i,
{
    if i < 0 || i >= paths.len() {
        Ok(done)
    } else {
        match one_path(paths[i], resolved[i], fold) {
            Err(e) => Err(e),
            Ok(p) => paths_from(paths, resolved, fold, i + 1, done.push(p)),
        }
    }
}

/// The destinations from position `i` on, behind `done`.
pub open spec fn destinations_from(
    network: Seq<NetworkView>,
    i: int,
    done: Seq<DestinationView>,
) -> Result<Seq<DestinationView>, LeaseErrorView>
    decreases network.len() - i,
{
    if i < 0 || i >= network.len() {
        Ok(done)
    } else {
        match declared_destination(network[i]) {
            Err(t) => Err(LeaseErrorView::BadEnvelope(t)),
            Ok(d) => destinations_from(network, i + 1, done.push(d)),
        }
    }
}

/// The secrets from position `i` on, behind `done`.
pub open spec fn secrets_from(secrets: Seq<SecretView>, i: int, done: Seq<Seq<char>>) -> Result<
    Seq<Seq<char>>,
    LeaseErrorView,
>
    decreases secrets.len() - i,
{
    if i < 0 || i >= secrets.len() {
        Ok(done)
    } else {
        match secret_ref(secrets[i].id) {
            Err(e) => Err(LeaseErrorView::Canonical(e)),
            Ok(s) => secrets_from(secrets, i + 1, done.push(s)),
        }
    }
}

/// The canonical action of an envelope whose paths resolved to `resolved`.
pub open spec fn action_of(env: EnvelopeView, resolved: Resolutions, fold: bool) -> Result<
    ActionView,
    LeaseErrorView,
> {
    match env.check() {
        Err(e) => Err(LeaseErrorView::BadEnvelope(e.message())),
        Ok(_) => match tool_name(env.tool_name) {
            Err(e) => Err(LeaseErrorView::BadEnvelope(e.message())),
            Ok(name) => match version_result(env.tool_version) {
                Err(e) => Err(LeaseErrorView::BadEnvelope("tool version: "@ + e)),
                Ok(version) => match paths_from(env.paths, resolved, fold, 0, Seq::empty()) {
                    Err(e) => Err(e),
                    Ok(paths) => match destinations_from(env.network, 0, Seq::empty()) {
                        Err(e) => Err(e),
                        Ok(destinations) => match secrets_from(env.secrets, 0, Seq::empty()) {
                            Err(e) => Err(e),
                            Ok(secrets) => match env.digest() {
                                Err(e) => Err(LeaseErrorView::BadEnvelope(e.message())),
                                Ok(digest) => Ok(
                                    ActionView {
                                        digest,
                                        tool_name: name,
                                        tool_version: version,
                                        paths,
                                        path_rights: env.paths.map_values(
                                            |p: PathResourceView| lease_rights(p.rights),
                                        ),
                                        destinations,
                                        secrets,
                                        effects: wire_effects(
                                            env.effects,
                                            env.secrets.len() as int,
                                        ),
                                    },
                                ),
                            },
                        },
                    },
                },
            },
        },
    }
}

/// The grants on paths, each with its rights.
pub open spec fn exact_paths(paths: Seq<PathView>, rights: Seq<PathRights>) -> Seq<PathGrantView> {
    Seq::new(paths.len(), |i: int| PathGrantView { root: paths[i], rights: rights[i] })
}

impl ActionView {
    /// The scope that covers this action and nothing else.
    pub open spec fn exact_scope(self) -> ScopeView {
        ScopeView {
            tools: Seq::<(Seq<char>, Seq<char>)>::empty().push(
                (self.tool_name, requirement_of_text("="@ + self.tool_version)->0),
            ),
            paths: exact_paths(self.paths, self.path_rights),
            destinations: self.destinations,
            secrets: deduped(sort_texts(self.secrets)),
            accounts: Seq::empty(),
            models: Seq::empty(),
            effects: self.effects,
        }
    }
}

/// The model of what a resolver gave for each path.
pub open spec fn resolution_views(v: Seq<Result<String, String>>) -> Resolutions {
    v.map_values(|r: Result<String, String>| crate::canonical::path::resolved_view(r))
}

/// The path at position `i` is handed to the resolver: the envelope and its
/// tool are in order, the path is not refused, and all before it stand.
pub open spec fn comes_to(env: EnvelopeView, resolved: Resolutions, fold: bool, i: int) -> bool {
    &&& env.check() is Ok
    &&& tool_name(env.tool_name) is Ok
    &&& version_result(env.tool_version) is Ok
    &&& refused(env.paths[i].path) is None
    &&& forall|j: int| 0 <= j < i ==> one_path(env.paths[j], #[trigger] resolved[j], fold) is Ok
}

/// `resolved` is what `resolver` gave for `path`.
pub open spec fn gave<R: PathResolver>(
    resolver: &R,
    path: Seq<char>,
    resolved: Result<String, String>,
) -> bool {
    exists|s: &str| s@ == path && #[trigger] call_ensures(R::resolve, (resolver, s), resolved)
}

/// `resolved` holds what `resolver` gave for each path that it was handed.
pub open spec fn resolved_by<R: PathResolver>(
    resolver: &R,
    env: EnvelopeView,
    resolved: Seq<Result<String, String>>,
    fold: bool,
) -> bool {
    &&& resolved.len() == env.paths.len()
    &&& forall|i: int|
        #![trigger resolved[i]]
        0 <= i < resolved.len() && comes_to(env, resolution_views(resolved), fold, i) ==> gave(
            resolver,
            env.paths[i].path,
            resolved[i],
        )
}

/// The model of a canonicalization.
pub open spec fn action_outcome(r: Result<CanonicalAction, LeaseError>) -> Result<
    ActionView,
    LeaseErrorView,
> {
    match r {
        Ok(a) => Ok(a@),
        Err(e) => Err(e@),
    }
}

fn copy_resolution(r: &Result<String, String>) -> (c: Result<String, String>)
    ensures
        crate::canonical::path::resolved_view(c) == crate::canonical::path::resolved_view(*r),
{
    match r {
        Ok(p) => Ok(p.clone()),
        Err(e) => Err(e.clone()),
    }
}

fn canonical_paths(
    env: &ActionEnvelope,
    resolved: &Vec<Result<String, String>>,
    fold: bool,
) -> (r: Result<Vec<CanonicalPath>, LeaseError>)
    requires
        resolved@.len() == env@.paths.len(),
    ensures
        (match r {
            Ok(p) => Ok::<Seq<PathView>, LeaseErrorView>(views(p@)),
            Err(e) => Err(e@),
        }) == paths_from(env@.paths, resolution_views(resolved@), fold, 0, Seq::empty()),
        r matches Ok(p) ==> p@.len() == env@.paths.len(),
{
    let list = &env.resources.paths;
    let ghost pv = env@.paths;
    let ghost rv = resolution_views(resolved@);
    let mut out: Vec<CanonicalPath> = Vec::new();
    let mut i: usize = 0;
    proof {
        assert(views(out@) =~= Seq::<PathView>::empty());
    }
    while i < list.len()
        invariant
            i <= list@.len(),
            list@ == env.resources.paths@,
            pv == views(list@),
            pv == env@.paths,
            rv == resolution_views(resolved@),
            resolved@.len() == pv.len(),
            out@.len() == i,
            paths_from(pv, rv, fold, 0, Seq::empty()) == paths_from(
                pv,
                rv,
                fold,
                i as int,
                views(out@),
            ),
        decreases list@.len() - i,
    {
        let input = list[i].path.as_str();
        proof {
            assert(pv[i as int] == list@[i as int]@);
            assert(rv[i as int] == crate::canonical::path::resolved_view(resolved@[i as int]));
        }
        let parsed = match CanonicalPath::refusal(input) {
            Some(e) => Err(e),
            None => CanonicalPath::from_resolved(input, copy_resolution(&resolved[i]), fold),
        };
        match parsed {
            Err(e) => {
                return Err(LeaseError::Canonical(e));
            },
            Ok(p) => {
                let ghost before = views(out@);
                let ghost v = p@;
                out.push(p);
                proof {
                    assert(views(out@) =~= before.push(v));
                }
            },
        }
        i += 1;
    }
    Ok(out)
}

fn canonical_destinations(env: &ActionEnvelope) -> (r: Result<Vec<NetworkDestination>, LeaseError>)
    ensures
        (match r {
            Ok(d) => Ok::<Seq<DestinationView>, LeaseErrorView>(destination_views(d@)),
            Err(e) => Err(e@),
        }) == destinations_from(env@.network, 0, Seq::empty()),
        r matches Ok(d) ==> forall|i: int| 0 <= i < d@.len() ==> (#[trigger] d@[i])@.wf(),
{
    let list = &env.resources.network;
    let ghost nv = env@.network;
    let mut out: Vec<NetworkDestination> = Vec::new();
    let mut i: usize = 0;
    proof {
        assert(destination_views(out@) =~= Seq::<DestinationView>::empty());
    }
    while i < list.len()
        invariant
            i <= list@.len(),
            list@ == env.resources.network@,
            nv == views(list@),
            nv == env@.network,
            forall|k: int| 0 <= k < out@.len() ==> (#[trigger] out@[k])@.wf(),
            destinations_from(nv, 0, Seq::empty()) == destinations_from(
                nv,
                i as int,
                destination_views(out@),
            ),
        decreases list@.len() - i,
    {
        proof {
            assert(nv[i as int] == list@[i as int]@);
        }
        match destination_from_resource(&list[i]) {
            Err(t) => {
                return Err(LeaseError::BadEnvelope(t));
            },
            Ok(d) => {
                let ghost before = destination_views(out@);
                let ghost v = d@;
                out.push(d);
                proof {
                    assert(destination_views(out@) =~= before.push(v));
                }
            },
        }
        i += 1;
    }
    Ok(out)
}

fn canonical_secrets(env: &ActionEnvelope) -> (r: Result<Vec<SecretRef>, LeaseError>)
    ensures
        (match r {
            Ok(s) => Ok::<Seq<Seq<char>>, LeaseErrorView>(views(s@)),
            Err(e) => Err(e@),
        }) == secrets_from(env@.secrets, 0, Seq::empty()),
{
    let list = &env.resources.secrets;
    let ghost sv = env@.secrets;
    let mut out: Vec<SecretRef> = Vec::new();
    let mut i: usize = 0;
    proof {
        assert(views(out@) =~= Seq::<Seq<char>>::empty());
    }
    while i < list.len()
        invariant
            i <= list@.len(),
            list@ == env.resources.secrets@,
            sv == views(list@),
            sv == env@.secrets,
            secrets_from(sv, 0, Seq::empty()) == secrets_from(sv, i as int, views(out@)),
        decreases list@.len() - i,
    {
        proof {
            assert(sv[i as int] == list@[i as int]@);
        }
        match SecretRef::parse(list[i].id.as_str()) {
            Err(e) => {
                return Err(LeaseError::Canonical(e));
            },
            Ok(s) => {
                let ghost before = views(out@);
                let ghost v = s@;
                out.push(s);
                proof {
                    assert(views(out@) =~= before.push(v));
                }
            },
        }
        i += 1;
    }
    Ok(out)
}

fn rights_of(env: &ActionEnvelope) -> (r: Vec<PathRights>)
    ensures
        r@ == env@.paths.map_values(|p: PathResourceView| lease_rights(p.rights)),
{
    let list = &env.resources.paths;
    let mut out: Vec<PathRights> = Vec::new();
    let mut i: usize = 0;
    while i < list.len()
        invariant
            i <= list@.len(),
            list@ == env.resources.paths@,
            out@.len() == i,
            forall|k: int| 0 <= k < i ==> #[trigger] out@[k] == lease_rights(list@[k].rights),
        decreases list@.len() - i,
    {
        out.push(
            match list[i].rights {
                crate::pi_boundary::PathRights::Read => PathRights { read: true, write: false },
                crate::pi_boundary::PathRights::Write => PathRights { read: true, write: true },
            },
        );
        i += 1;
    }
    proof {
        assert(out@ =~= env@.paths.map_values(|p: PathResourceView| lease_rights(p.rights)));
    }
    out
}

impl CanonicalAction {
    /// The parallel lists are of one length, and the destinations are well
    /// formed.
    pub open spec fn wf(&self) -> bool {
        &&& self.paths@.len() == self.path_rights@.len()
        &&& forall|i: int| 0 <= i < self.destinations@.len() ==> (#[trigger] self.destinations@[i])@.wf()
    }

    /// The canonical action of an envelope, with what a resolver made of each
    /// of its paths.
    pub fn from_resolved(
        env: &ActionEnvelope,
        resolved: &Vec<Result<String, String>>,
        case_insensitive_fs: bool,
    ) -> (r: Result<CanonicalAction, LeaseError>)
        requires
            resolved@.len() == env@.paths.len(),
        ensures
            action_outcome(r) == action_of(env@, resolution_views(resolved@), case_insensitive_fs),
            r matches Ok(a) ==> a.wf(),
    {
        if let Err(e) = env.validate() {
            return Err(LeaseError::BadEnvelope(e.message()));
        }
        let tool_name = match ToolName::parse(env.tool.name.as_str()) {
            Ok(n) => n,
            Err(e) => {
                return Err(LeaseError::BadEnvelope(e.message()));
            },
        };
        let tool_version = match Version::read(env.tool.version.as_str()) {
            Ok(v) => v,
            Err(e) => {
                return Err(LeaseError::BadEnvelope(concat("tool version: ", e.as_str())));
            },
        };
        let paths = match canonical_paths(env, resolved, case_insensitive_fs) {
            Ok(p) => p,
            Err(e) => {
                return Err(e);
            },
        };
        let destinations = match canonical_destinations(env) {
            Ok(d) => d,
            Err(e) => {
                return Err(e);
            },
        };
        let secrets = match canonical_secrets(env) {
            Ok(s) => s,
            Err(e) => {
                return Err(e);
            },
        };
        let digest = match env.digest() {
            Ok(d) => d,
            Err(e) => {
                return Err(LeaseError::BadEnvelope(e.message()));
            },
        };
        Ok(
            CanonicalAction {
                digest,
                tool_name,
                tool_version,
                paths,
                path_rights: rights_of(env),
                destinations,
                secrets,
                effects: EffectClass::from_wire(
                    &env.expected_effects,
                    env.resources.secrets.len(),
                ),
            },
        )
    }

    /// The canonical action of an envelope, whose paths `resolver` resolves.
    pub fn from_envelope<R: PathResolver>(
        env: &ActionEnvelope,
        resolver: &R,
        case_insensitive_fs: bool,
    ) -> (r: Result<CanonicalAction, LeaseError>)
        ensures
            exists|resolved: Seq<Result<String, String>>| #[trigger]
                resolved_by(resolver, env@, resolved, case_insensitive_fs) && action_outcome(r)
                    == action_of(env@, resolution_views(resolved), case_insensitive_fs),
            r matches Ok(a) ==> a.wf(),
    {
        let resolved = resolve_paths(env, resolver, case_insensitive_fs);
        CanonicalAction::from_resolved(env, &resolved, case_insensitive_fs)
    }

    /// The scope that covers this action and nothing else.
    pub fn exact_scope(&self) -> (r: ResourceScope)
        requires
            self.wf(),
        ensures
            r@ == self@.exact_scope(),
            r@.wf(),
    {
        let mut scope = ResourceScope::empty();
        scope.tools.insert(self.tool_name.as_str().to_owned(), self.tool_version.pin());
        proof {
            let t = scope.tools@;
            assert(t.len() == 1);
            crate::ordered::lookup_stands(t, self@.tool_name);
            assert(t =~= self@.exact_scope().tools);
        }
        let ghost tools = scope.tools@;
        let mut grants: Vec<PathGrant> = Vec::new();
        let mut i: usize = 0;
        while i < self.paths.len()
            invariant
                i <= self.paths@.len(),
                self.wf(),
                grants@.len() == i,
                forall|k: int|
                    0 <= k < i ==> (#[trigger] grants@[k])@ == (PathGrantView {
                        root: self.paths@[k]@,
                        rights: self.path_rights@[k],
                    }),
            decreases self.paths@.len() - i,
        {
            grants.push(PathGrant { root: self.paths[i].clone(), rights: self.path_rights[i] });
            i += 1;
        }
        let mut secrets: Vec<String> = Vec::new();
        let mut i: usize = 0;
        while i < self.secrets.len()
            invariant
                i <= self.secrets@.len(),
                secrets@.len() == i,
                forall|k: int| 0 <= k < i ==> (#[trigger] secrets@[k])@ == self.secrets@[k]@,
            decreases self.secrets@.len() - i,
        {
            secrets.push(self.secrets[i].as_str().to_owned());
            i += 1;
        }
        proof {
            assert(texts(secrets@) =~= self@.secrets);
            assert(grant_views(grants@) =~= self@.exact_scope().paths);
        }
        let scope = ResourceScope {
            tools: scope.tools,
            paths: grants,
            destinations: copy_destinations(&self.destinations),
            secrets: TextSet::from_list(secrets),
            accounts: scope.accounts,
            models: scope.models,
            effects: copy_effects(&self.effects),
        };
        proof {
            assert(scope@ == self@.exact_scope());
            assert forall|k: int| 0 <= k < scope@.destinations.len() implies (
            #[trigger] scope@.destinations[k]).wf() by {
                assert(scope@.destinations[k] == self.destinations@[k]@);
            }
        }
        scope
    }
}

fn resolve_paths<R: PathResolver>(env: &ActionEnvelope, resolver: &R, fold: bool) -> (r: Vec<
    Result<String, String>,
>)
    ensures
        resolved_by(resolver, env@, r@, fold),
{
    let list = &env.resources.paths;
    let mut out: Vec<Result<String, String>> = Vec::new();
    let mut open = env.validate().is_ok() && ToolName::parse(env.tool.name.as_str()).is_ok()
        && Version::read(env.tool.version.as_str()).is_ok();
    let mut i: usize = 0;
    while i < list.len()
        invariant
            i <= list@.len(),
            list@ == env.resources.paths@,
            out@.len() == i,
            open == {
                &&& env@.check() is Ok
                &&& tool_name(env@.tool_name) is Ok
                &&& version_result(env@.tool_version) is Ok
                &&& forall|j: int|
                    0 <= j < i ==> one_path(
                        env@.paths[j],
                        #[trigger] resolution_views(out@)[j],
                        fold,
                    ) is Ok
            },
            forall|k: int|
                #![trigger out@[k]]
                0 <= k < i && comes_to(env@, resolution_views(out@), fold, k) ==> gave(
                    resolver,
                    env@.paths[k].path,
                    out@[k],
                ),
        decreases list@.len() - i,
    {
        let input = list[i].path.as_str();
        let ghost was_open = open;
        let ghost before = out@;
        let ghost seen = resolution_views(before);
        if open && CanonicalPath::refusal(input).is_none() {
            let resolved = resolver.resolve(input);
            proof {
                assert(call_ensures(R::resolve, (resolver, input), resolved));
                assert(gave(resolver, input@, resolved));
            }
            open = CanonicalPath::from_resolved(input, copy_resolution(&resolved), fold).is_ok();
            out.push(resolved);
        } else {
            open = false;
            out.push(Err(String::new()));
        }
        proof {
            let now = resolution_views(out@);
            assert(env@.paths[i as int].path == input@);
            assert forall|j: int| 0 <= j < i implies #[trigger] now[j] == seen[j] by {
                assert(out@[j] == before[j]);
            }
            if open {
                assert forall|j: int| 0 <= j < i + 1 implies one_path(
                    env@.paths[j],
                    #[trigger] now[j],
                    fold,
                ) is Ok by {
                    if j < i {
                        assert(seen[j] == now[j]);
                    }
                }
            } else {
                assert(!was_open || one_path(env@.paths[i as int], now[i as int], fold) is Err);
                if was_open {
                    assert(now[i as int] == now[i as int]);
                } else if env@.check() is Ok && tool_name(env@.tool_name) is Ok && version_result(
                    env@.tool_version,
                ) is Ok {
                    let j = choose|j: int|
                        0 <= j < i && !(one_path(env@.paths[j], #[trigger] seen[j], fold) is Ok);
                    assert(now[j] == seen[j]);
                }
            }
            assert forall|k: int|
                #![trigger out@[k]]
                0 <= k < i + 1 && comes_to(env@, now, fold, k) implies gave(
                resolver,
                env@.paths[k].path,
                out@[k],
            ) by {
                if k < i {
                    assert(out@[k] == before[k]);
                    assert forall|j: int| 0 <= j < k implies one_path(
                        env@.paths[j],
                        #[trigger] seen[j],
                        fold,
                    ) is Ok by {
                        assert(now[j] == seen[j]);
                    }
                    assert(comes_to(env@, seen, fold, k));
                } else {
                    assert forall|j: int| 0 <= j < i implies one_path(
                        env@.paths[j],
                        #[trigger] seen[j],
                        fold,
                    ) is Ok by {
                        assert(now[j] == seen[j]);
                    }
                    assert(was_open);
                }
            }
        }
        i += 1;
    }
    out
}

/// A human's approval of one action, by its digest.
#[derive(Clone, Debug, PartialEq, Eq)]
pub struct OneShotGrant {
    pub approval_id: String,
    pub action_digest: String,
    pub session_subject: String,
    /// The human's key.
    pub signer_key_id: String,
    pub nonce: String,
    pub created_at_ms: i64,
    pub expires_at_ms: i64,
    /// The signature, in hexadecimal.
    pub signature: String,
}

/// The model of a `OneShotGrant`.
pub struct GrantView {
    pub approval_id: Seq<char>,
    pub action_digest: Seq<char>,
    pub session_subject: Seq<char>,
    pub signer_key_id: Seq<char>,
    pub nonce: Seq<char>,
    pub created_at_ms: i64,
    pub expires_at_ms: i64,
    pub signature: Seq<char>,
}

impl View for OneShotGrant {
    type V = GrantView;

    open spec fn view(&self) -> GrantView {
        GrantView {
            approval_id: self.approval_id@,
            action_digest: self.action_digest@,
            session_subject: self.session_subject@,
            signer_key_id: self.signer_key_id@,
            nonce: self.nonce@,
            created_at_ms: self.created_at_ms,
            expires_at_ms: self.expires_at_ms,
            signature: self.signature@,
        }
    }
}

impl GrantView {
    /// The JSON value that the signature covers.
    pub open spec fn unsigned(self) -> JsonView {
        JsonView::Object(
            no_fields().push(("approval_id"@, JsonView::Str(self.approval_id))).push(
                ("action_digest"@, JsonView::Str(self.action_digest)),
            ).push(("session_subject"@, JsonView::Str(self.session_subject))).push(
                ("signer_key_id"@, JsonView::Str(self.signer_key_id)),
            ).push(("nonce"@, JsonView::Str(self.nonce))).push(
                ("created_at_ms"@, JsonView::Int(self.created_at_ms as int)),
            ).push(("expires_at_ms"@, JsonView::Int(self.expires_at_ms as int))),
        )
    }

    /// The text that the signature covers.
    pub open spec fn signing_text(self) -> Seq<char> {
        canonical(self.unsigned())->Ok_0
    }

    /// The grant is signed with the secret key of the public key `key`.
    pub open spec fn verifies(self, key: Seq<u8>) -> bool {
        signed_by(key, encode_utf8(self.signing_text()), self.signature)
    }
}

proof fn grants_are_canonical(g: GrantView)
    ensures
        canonical(g.unsigned()) is Ok,
{
    broadcast use {integral_none, integral_push};

    assert(integral(g.unsigned()));
    canonical_iff_integral(g.unsigned());
}

impl OneShotGrant {
    /// The canonical text that the signature covers.
    pub fn signing_bytes(&self) -> (r: Result<String, LeaseError>)
        ensures
            r matches Ok(t) && t@ == self@.signing_text(),
    {
        let mut m = no_members();
        put(&mut m, "approval_id", string(self.approval_id.as_str()));
        put(&mut m, "action_digest", string(self.action_digest.as_str()));
        put(&mut m, "session_subject", string(self.session_subject.as_str()));
        put(&mut m, "signer_key_id", string(self.signer_key_id.as_str()));
        put(&mut m, "nonce", string(self.nonce.as_str()));
        put(&mut m, "created_at_ms", Json::Int(self.created_at_ms));
        put(&mut m, "expires_at_ms", Json::Int(self.expires_at_ms));
        let j = object(m);
        proof {
            grants_are_canonical(self@);
        }
        match canonical_json(&j) {
            Ok(t) => Ok(t),
            Err(e) => Err(LeaseError::ProtocolCanonical(e)),
        }
    }

    fn signing_string(&self) -> (r: String)
        ensures
            r@ == self@.signing_text(),
    {
        match self.signing_bytes() {
            Ok(t) => t,
            Err(_) => String::new(),
        }
    }

    /// Signs the grant.
    pub fn sign(&mut self, key: &SigningKey)
        ensures
            final(self)@ == (GrantView {
                signature: hex_signature(key@, encode_utf8(old(self)@.signing_text())),
                ..old(self)@
            }),
            final(self)@.verifies(crate::keys::ed25519_public(key@)),
    {
        let text = self.signing_string();
        let ghost before = self@;
        self.signature = sign_hex(key, text.as_str().as_bytes());
        proof {
            assert(self@.unsigned() == before.unsigned());
        }
    }

    /// Checks the signature.
    pub fn verify(&self, key: &VerifyingKey) -> (r: Result<(), LeaseError>)
        ensures
            lease_unit(r) == (if self@.verifies(key@) {
                Ok(())
            } else {
                Err(LeaseErrorView::BadSignature)
            }),
    {
        let text = self.signing_string();
        if verify_hex(key, text.as_str().as_bytes(), self.signature.as_str()) {
            Ok(())
        } else {
            Err(LeaseError::BadSignature)
        }
    }
}

/// What an approval is refused for.
pub open spec fn grant_check(
    grant: GrantView,
    vhl_key: Seq<u8>,
    action: ActionView,
    now_ms: i64,
) -> Result<(), LeaseErrorView> {
    if !grant.verifies(vhl_key) {
        Err(LeaseErrorView::BadSignature)
    } else if grant.action_digest != action.digest {
        Err(LeaseErrorView::BadEnvelope("approval digest does not match action"@))
    } else if grant.created_at_ms > now_ms || grant.expires_at_ms <= now_ms {
        Err(LeaseErrorView::ActionExpired)
    } else if grant.created_at_ms >= grant.expires_at_ms {
        Err(LeaseErrorView::InvalidTimeBounds(grant.created_at_ms, grant.expires_at_ms))
    } else {
        Ok(())
    }
}

/// One execution.
pub open spec fn one_execution() -> Budget {
    Budget::of(
        |d: BudgetDimension|
            if d == BudgetDimension::Executions {
                1u64
            } else {
                0u64
            },
    )
}

/// The single-use lease of an approval, before it is signed.
pub open spec fn one_shot_document(
    grant: GrantView,
    action: ActionView,
    lease_id: Seq<char>,
    issuer_key_id: Seq<char>,
    now_ms: i64,
) -> LeaseView {
    LeaseView {
        protocol_version: LEASE_PROTOCOL_VERSION,
        lease_id,
        parent_id: None,
        subject: grant.session_subject,
        issuer_key_id,
        issued_at_ms: now_ms,
        scope: action.exact_scope(),
        limits: LeaseLimits {
            not_before_ms: now_ms,
            expires_at_ms: grant.expires_at_ms,
            budget: one_execution(),
            max_executions: Some(1),
            single_use: true,
        },
        depth: 0,
        depth_limit: 1,
        lease_nonce: "oneshot:"@ + grant.nonce,
        approved_action_digest: Some(action.digest),
        signature: ""@,
    }
}

/// The nonces and the ledger after an approval was presented, and the answer.
pub open spec fn one_shot_minted(
    grant: GrantView,
    vhl_key: Seq<u8>,
    action: ActionView,
    lease_id: Seq<char>,
    issuer_key_id: Seq<char>,
    issuer: Seq<u8>,
    sessions: RegistryView,
    nonces: NoncesView,
    ledger: LedgerView,
    now_ms: i64,
) -> (NoncesView, LedgerView, Result<LeaseView, LeaseErrorView>) {
    match grant_check(grant, vhl_key, action, now_ms) {
        Err(e) => (nonces, ledger, Err(e)),
        Ok(_) => {
            let n = presented(
                nonces,
                grant.nonce,
                now_ms,
                saturating_sum(grant.expires_at_ms as int, -(now_ms as int)) as i64,
            );
            match n.1 {
                Err(e) => (n.0, ledger, Err(LeaseErrorView::Nonce(e))),
                Ok(_) => if !(sessions.sessions.dom().contains(grant.session_subject)
                    && sessions.sessions[grant.session_subject].active) {
                    (n.0, ledger, Err(LeaseErrorView::SubjectInactive(grant.session_subject)))
                } else {
                    let l = ledger.register(lease_id, one_execution());
                    match l.1 {
                        Err(e) => (n.0, l.0, Err(LeaseErrorView::Budget(e))),
                        Ok(_) => (
                            n.0,
                            l.0,
                            Ok(
                                one_shot_document(
                                    grant,
                                    action,
                                    lease_id,
                                    issuer_key_id,
                                    now_ms,
                                ).signed(issuer),
                            ),
                        ),
                    }
                },
            }
        },
    }
}

/// The budget of one execution.
pub fn one_execution_budget() -> (r: Budget)
    ensures
        r == one_execution(),
{
    broadcast use crate::budget::budget_of_at;

    let b = Budget::new().set(BudgetDimension::Executions, 1);
    proof {
        crate::budget::budget_extensional(b, one_execution());
    }
    b
}

/// Mints a single-use lease from a human's approval: it covers exactly the
/// approved action, once.
pub fn mint_one_shot_lease(
    grant: &OneShotGrant,
    vhl_key: &VerifyingKey,
    action: &CanonicalAction,
    keys: &KernelKeys,
    sessions: &SessionRegistry,
    ledger: &mut BudgetLedger,
    nonces: &mut NonceStore,
    now_ms: i64,
) -> (r: Result<LeaseDocument, LeaseError>)
    requires
        action.wf(),
        sessions.wf(),
        old(ledger).wf(),
    ensures
        final(ledger).wf(),
        exists|u: u128|
            (final(nonces)@, final(ledger)@, lease_result(r)) == #[trigger] one_shot_minted(
                grant@,
                vhl_key@,
                action@,
                uuid_text(u),
                keys.issuer_id(),
                keys.issuer_seed(),
                sessions@,
                old(nonces)@,
                old(ledger)@,
                now_ms,
            ),
{
    let u: u128 = random_uuid();
    mint_one_shot_lease_as(
        grant,
        vhl_key,
        action,
        uuid_to_text(u),
        keys,
        sessions,
        ledger,
        nonces,
        now_ms,
    )
}

/// Mints a single-use lease with the given identity.
pub fn mint_one_shot_lease_as(
    grant: &OneShotGrant,
    vhl_key: &VerifyingKey,
    action: &CanonicalAction,
    lease_id: String,
    keys: &KernelKeys,
    sessions: &SessionRegistry,
    ledger: &mut BudgetLedger,
    nonces: &mut NonceStore,
    now_ms: i64,
) -> (r: Result<LeaseDocument, LeaseError>)
    requires
        action.wf(),
        sessions.wf(),
        old(ledger).wf(),
    ensures
        final(ledger).wf(),
        (final(nonces)@, final(ledger)@, lease_result(r)) == one_shot_minted(
            grant@,
            vhl_key@,
            action@,
            lease_id@,
            keys.issuer_id(),
            keys.issuer_seed(),
            sessions@,
            old(nonces)@,
            old(ledger)@,
            now_ms,
        ),
{
    if let Err(e) = grant.verify(vhl_key) {
        return Err(e);
    }
    if !str_eq(grant.action_digest.as_str(), action.digest.as_str()) {
        return Err(LeaseError::BadEnvelope("approval digest does not match action".to_owned()));
    }
    if grant.created_at_ms > now_ms || grant.expires_at_ms <= now_ms {
        return Err(LeaseError::ActionExpired);
    }
    if grant.created_at_ms >= grant.expires_at_ms {
        return Err(LeaseError::InvalidTimeBounds(grant.created_at_ms, grant.expires_at_ms));
    }
    if let Err(e) = nonces.check_and_insert(
        grant.nonce.as_str(),
        now_ms,
        saturating_sub(grant.expires_at_ms, now_ms),
    ) {
        return Err(LeaseError::Nonce(e));
    }
    let active = match sessions.get(grant.session_subject.as_str()) {
        Some(record) => record.active,
        None => false,
    };
    if !active {
        return Err(LeaseError::SubjectInactive(grant.session_subject.clone()));
    }
    let budget = one_execution_budget();
    if let Err(e) = ledger.register_lease(lease_id.as_str(), &budget) {
        return Err(LeaseError::Budget(e));
    }
    let ghost unsigned = one_shot_document(
        grant@,
        action@,
        lease_id@,
        keys.issuer_id(),
        now_ms,
    );
    let mut doc = LeaseDocument {
        protocol_version: LEASE_PROTOCOL_VERSION,
        lease_id,
        parent_id: None,
        subject: grant.session_subject.clone(),
        issuer_key_id: keys.issuer_id_text().to_owned(),
        issued_at_ms: now_ms,
        scope: action.exact_scope(),
        limits: LeaseLimits {
            not_before_ms: now_ms,
            expires_at_ms: grant.expires_at_ms,
            budget,
            max_executions: Some(1),
            single_use: true,
        },
        depth: 0,
        depth_limit: 1,
        lease_nonce: concat("oneshot:", grant.nonce.as_str()),
        approved_action_digest: Some(action.digest.clone()),
        signature: "".to_owned(),
    };
    proof {
        assert(doc@ == unsigned);
    }
    doc.sign(keys.issuer_key());
    Ok(doc)
}

/// The scope grants all that an envelope declares: a network resource by a
/// destination that covers the very host and port declared, a path by a root at
/// or above it with the declared rights, a secret by its name, each effect by
/// its class, and the tool by its name with a requirement that its version
/// meets.
pub open spec fn grants_what_is_declared(
    scope: ScopeView,
    env: EnvelopeView,
    resolved: Resolutions,
    fold: bool,
) -> bool {
    &&& forall|i: int|
        0 <= i < env.network.len() ==> {
            &&& declared_destination(#[trigger] env.network[i]) is Ok
            &&& exists|j: int|
                0 <= j < scope.destinations.len() && declared_destination(
                    env.network[i],
                )->Ok_0.subset(#[trigger] scope.destinations[j]) is Ok
        }
    &&& forall|i: int|
        0 <= i < env.paths.len() ==> {
            &&& canonicalize((#[trigger] env.paths[i]).path, resolved[i], fold) is Ok
            &&& exists|j: int|
                {
                    let at = canonicalize(env.paths[i].path, resolved[i], fold)->Ok_0;
                    let grant = #[trigger] scope.paths[j];
                    &&& 0 <= j < scope.paths.len()
                    &&& grant.root.case_folded == at.case_folded
                    &&& grant.root.components.is_prefix_of(at.components)
                    &&& grant.rights.read
                    &&& env.paths[i].rights is Write ==> grant.rights.write
                }
        }
    &&& forall|i: int|
        0 <= i < env.secrets.len() ==> scope.secrets.contains((#[trigger] env.secrets[i]).id)
    &&& env.effects.file_read ==> scope.effects.contains(EffectClass::Read)
    &&& env.effects.file_write ==> scope.effects.contains(EffectClass::Write)
    &&& env.effects.network_egress || env.effects.network_ingress ==> scope.effects.contains(
        EffectClass::Network,
    )
    &&& env.effects.process_spawn ==> scope.effects.contains(EffectClass::Execute)
    &&& env.secrets.len() > 0 ==> scope.effects.contains(EffectClass::SecretUse)
    &&& tool_name(env.tool_name) is Ok && version_result(env.tool_version) is Ok
    &&& ({
        let name = tool_name(env.tool_name)->Ok_0;
        let pin = exact_pin_of(
            requirement_of_text("="@ + version_result(env.tool_version)->Ok_0)->0,
        );
        &&& tool_name(name) is Ok
        &&& lookup(scope.tools, name) is Some
        &&& pin is Some
        &&& requirement_matches(lookup(scope.tools, name)->0, pin->0)
    })
}

/// The exact scope of an action is what its envelope declares, neither more nor
/// less: a scope covers it exactly if it grants all that is declared.
pub proof fn exact_scopes_hold_what_is_declared(
    env: EnvelopeView,
    resolved: Resolutions,
    fold: bool,
    scope: ScopeView,
)
    requires
        action_of(env, resolved, fold) is Ok,
    ensures
        action_of(env, resolved, fold)->Ok_0.exact_scope().subset(scope) is Ok
            <==> grants_what_is_declared(scope, env, resolved, fold),
{
    let a = action_of(env, resolved, fold)->Ok_0;
    let exact = a.exact_scope();
    scopes_are_compared_item_by_item(exact, scope);
    paths_are_each(env.paths, resolved, fold, 0, Seq::empty());
    destinations_are_each(env.network, 0, Seq::empty());
    secrets_are_each(env.secrets, 0, Seq::empty());
    text_set_members(a.secrets);
    assert(exact.tools[0] == (
        a.tool_name,
        requirement_of_text("="@ + a.tool_version)->0,
    ));
    assert forall|i: int| 0 <= i < env.network.len() implies #[trigger] exact.destinations[i]
        == declared_destination(env.network[i])->Ok_0 by {}
    assert forall|i: int| 0 <= i < env.paths.len() implies (#[trigger] exact.paths[i]).root
        == canonicalize(env.paths[i].path, resolved[i], fold)->Ok_0 && exact.paths[i].rights
        == lease_rights(env.paths[i].rights) by {}
    effects_are_each(env.effects, env.secrets.len() as int, scope.effects);
    if exact.subset(scope) is Ok {
        assert forall|i: int| 0 <= i < env.secrets.len() implies scope.secrets.contains(
            (#[trigger] env.secrets[i]).id,
        ) by {
            assert(a.secrets[i] == env.secrets[i].id);
            assert(a.secrets.contains(env.secrets[i].id));
            assert(text_set(a.secrets).contains(env.secrets[i].id));
            let k = choose|k: int|
                0 <= k < exact.secrets.len() && exact.secrets[k] == env.secrets[i].id;
            assert(scope.secrets.contains(exact.secrets[k]));
        }
        assert forall|i: int| 0 <= i < env.network.len() implies {
            &&& declared_destination(#[trigger] env.network[i]) is Ok
            &&& exists|j: int|
                0 <= j < scope.destinations.len() && declared_destination(
                    env.network[i],
                )->Ok_0.subset(#[trigger] scope.destinations[j]) is Ok
        } by {
            let d = exact.destinations[i];
            let j = choose|j: int|
                0 <= j < scope.destinations.len() && d.subset(
                    #[trigger] scope.destinations[j],
                ) is Ok;
            assert(declared_destination(env.network[i])->Ok_0.subset(scope.destinations[j]) is Ok);
        }
        assert forall|i: int| 0 <= i < env.paths.len() implies {
            &&& canonicalize((#[trigger] env.paths[i]).path, resolved[i], fold) is Ok
            &&& exists|j: int|
                {
                    let at = canonicalize(env.paths[i].path, resolved[i], fold)->Ok_0;
                    let grant = #[trigger] scope.paths[j];
                    &&& 0 <= j < scope.paths.len()
                    &&& grant.root.case_folded == at.case_folded
                    &&& grant.root.components.is_prefix_of(at.components)
                    &&& grant.rights.read
                    &&& env.paths[i].rights is Write ==> grant.rights.write
                }
        } by {
            let p = exact.paths[i];
            let j = choose|j: int|
                {
                    &&& 0 <= j < scope.paths.len()
                    &&& (#[trigger] scope.paths[j]).root.case_folded == p.root.case_folded
                    &&& scope.paths[j].root.components.is_prefix_of(p.root.components)
                    &&& p.rights.read ==> scope.paths[j].rights.read
                    &&& p.rights.write ==> scope.paths[j].rights.write
                };
            assert(scope.paths[j].rights.read);
        }
    }
    if grants_what_is_declared(scope, env, resolved, fold) {
        assert forall|k: int| 0 <= k < exact.secrets.len() implies scope.secrets.contains(
            #[trigger] exact.secrets[k],
        ) by {
            assert(text_set(a.secrets).contains(exact.secrets[k]));
            assert(a.secrets.contains(exact.secrets[k]));
            let i = choose|i: int| 0 <= i < a.secrets.len() && a.secrets[i] == exact.secrets[k];
            assert(a.secrets[i] == env.secrets[i].id);
        }
        assert forall|k: int| 0 <= k < exact.destinations.len() implies exists|j: int|
            0 <= j < scope.destinations.len() && (#[trigger] exact.destinations[k]).subset(
                #[trigger] scope.destinations[j],
            ) is Ok by {
            assert(declared_destination(env.network[k]) is Ok);
            let j = choose|j: int|
                0 <= j < scope.destinations.len() && declared_destination(
                    env.network[k],
                )->Ok_0.subset(#[trigger] scope.destinations[j]) is Ok;
            assert(exact.destinations[k].subset(scope.destinations[j]) is Ok);
        }
        assert forall|k: int| 0 <= k < exact.paths.len() implies exists|j: int|
            {
                &&& 0 <= j < scope.paths.len()
                &&& (#[trigger] scope.paths[j]).root.case_folded == (
                #[trigger] exact.paths[k]).root.case_folded
                &&& scope.paths[j].root.components.is_prefix_of(exact.paths[k].root.components)
                &&& exact.paths[k].rights.read ==> scope.paths[j].rights.read
                &&& exact.paths[k].rights.write ==> scope.paths[j].rights.write
            } by {
            let at = canonicalize(env.paths[k].path, resolved[k], fold)->Ok_0;
            let j = choose|j: int|
                {
                    let grant = #[trigger] scope.paths[j];
                    &&& 0 <= j < scope.paths.len()
                    &&& grant.root.case_folded == at.case_folded
                    &&& grant.root.components.is_prefix_of(at.components)
                    &&& grant.rights.read
                    &&& env.paths[k].rights is Write ==> grant.rights.write
                };
            assert(scope.paths[j].root.case_folded == exact.paths[k].root.case_folded);
        }
    }
}

proof fn effects_are_each(flags: EffectClasses, secret_refs: int, granted: Seq<EffectClass>)
    ensures
        (forall|k: int|
            0 <= k < wire_effects(flags, secret_refs).len() ==> granted.contains(
                #[trigger] wire_effects(flags, secret_refs)[k],
            )) <==> {
            &&& flags.file_read ==> granted.contains(EffectClass::Read)
            &&& flags.file_write ==> granted.contains(EffectClass::Write)
            &&& flags.network_egress || flags.network_ingress ==> granted.contains(
                EffectClass::Network,
            )
            &&& flags.process_spawn ==> granted.contains(EffectClass::Execute)
            &&& secret_refs > 0 ==> granted.contains(EffectClass::SecretUse)
        },
{
    let none = Seq::<EffectClass>::empty();
    let one = if flags.file_read {
        none.push(EffectClass::Read)
    } else {
        none
    };
    let two = if flags.file_write {
        one.push(EffectClass::Write)
    } else {
        one
    };
    let three = if flags.network_egress || flags.network_ingress {
        two.push(EffectClass::Network)
    } else {
        two
    };
    let four = if flags.process_spawn {
        three.push(EffectClass::Execute)
    } else {
        three
    };
    let all = wire_effects(flags, secret_refs);
    if forall|k: int| 0 <= k < all.len() ==> granted.contains(#[trigger] all[k]) {
        if flags.file_read {
            assert(granted.contains(all[0]));
        }
        if flags.file_write {
            assert(granted.contains(all[one.len() as int]));
        }
        if flags.network_egress || flags.network_ingress {
            assert(granted.contains(all[two.len() as int]));
        }
        if flags.process_spawn {
            assert(granted.contains(all[three.len() as int]));
        }
        if secret_refs > 0 {
            assert(granted.contains(all[four.len() as int]));
        }
    }
}

proof fn paths_are_each(
    paths: Seq<PathResourceView>,
    resolved: Resolutions,
    fold: bool,
    i: int,
    done: Seq<PathView>,
)
    requires
        0 <= i <= paths.len(),
        done.len() == i,
        paths_from(paths, resolved, fold, i, done) is Ok,
    ensures
        ({
            let all = paths_from(paths, resolved, fold, i, done)->Ok_0;
            &&& all.len() == paths.len()
            &&& forall|k: int| 0 <= k < i ==> #[trigger] all[k] == done[k]
            &&& forall|k: int|
                i <= k < paths.len() ==> canonicalize(paths[k].path, resolved[k], fold) == Ok::<
                    PathView,
                    crate::canonical::CanonicalErrorView,
                >(#[trigger] all[k])
        }),
    decreases paths.len() - i,
{
    if i < paths.len() {
        let p = one_path(paths[i], resolved[i], fold)->Ok_0;
        let next = done.push(p);
        paths_are_each(paths, resolved, fold, i + 1, next);
        let all = paths_from(paths, resolved, fold, i, done)->Ok_0;
        assert(all[i] == next[i]);
        assert forall|k: int| 0 <= k < i implies #[trigger] all[k] == done[k] by {
            assert(all[k] == next[k]);
        }
    }
}

proof fn destinations_are_each(network: Seq<NetworkView>, i: int, done: Seq<DestinationView>)
    requires
        0 <= i <= network.len(),
        done.len() == i,
        destinations_from(network, i, done) is Ok,
    ensures
        ({
            let all = destinations_from(network, i, done)->Ok_0;
            &&& all.len() == network.len()
            &&& forall|k: int| 0 <= k < i ==> #[trigger] all[k] == done[k]
            &&& forall|k: int|
                i <= k < network.len() ==> declared_destination(network[k]) == Ok::<
                    DestinationView,
                    Seq<char>,
                >(#[trigger] all[k])
        }),
    decreases network.len() - i,
{
    if i < network.len() {
        let next = done.push(declared_destination(network[i])->Ok_0);
        destinations_are_each(network, i + 1, next);
        let all = destinations_from(network, i, done)->Ok_0;
        assert(all[i] == next[i]);
        assert forall|k: int| 0 <= k < i implies #[trigger] all[k] == done[k] by {
            assert(all[k] == next[k]);
        }
    }
}

proof fn secrets_are_each(secrets: Seq<SecretView>, i: int, done: Seq<Seq<char>>)
    requires
        0 <= i <= secrets.len(),
        done.len() == i,
        secrets_from(secrets, i, done) is Ok,
    ensures
        ({
            let all = secrets_from(secrets, i, done)->Ok_0;
            &&& all.len() == secrets.len()
            &&& forall|k: int| 0 <= k < i ==> #[trigger] all[k] == done[k]
            &&& forall|k: int| i <= k < secrets.len() ==> #[trigger] all[k] == secrets[k].id
        }),
    decreases secrets.len() - i,
{
    if i < secrets.len() {
        let next = done.push(secret_ref(secrets[i].id)->Ok_0);
        secrets_are_each(secrets, i + 1, next);
        let all = secrets_from(secrets, i, done)->Ok_0;
        assert(all[i] == next[i]);
        assert forall|k: int| 0 <= k < i implies #[trigger] all[k] == done[k] by {
            assert(all[k] == next[k]);
        }
    }
}

/// A declared network resource stands for exactly the host and the port that it
/// declares, with no methods listed: no other port is in it.
pub proof fn declared_destinations_are_exact(n: NetworkView)
    requires
        declared_destination(n) is Ok,
    ensures
        ({
            let d = declared_destination(n)->Ok_0;
            &&& host_of(unbracketed(n.host)) is Ok && d.host == host_of(unbracketed(n.host))->Ok_0
            &&& !d.ports.any
            &&& forall|p: int| #[trigger] d.ports.has(p) <==> p == n.port
            &&& d.methods.len() == 0
        }),
{
    let d = declared_destination(n)->Ok_0;
    assert(d.ports.ranges =~= seq![(n.port, n.port)]);
    assert forall|p: int| #[trigger] d.ports.has(p) <==> p == n.port by {
        assert(d.ports.ranges[0] == (n.port, n.port));
    }
}

/// The signature of an approval covers all of it but the signature: two
/// approvals with the same covered value are for the same action, session and
/// time, by the same signer, under the same nonce.
pub proof fn covered_values_tell_grants_apart(a: GrantView, b: GrantView)
    requires
        a.unsigned() == b.unsigned(),
    ensures
        b == (GrantView { signature: b.signature, ..a }),
{
    let x = a.unsigned()->Object_0;
    let y = b.unsigned()->Object_0;
    assert(x[0].1 == y[0].1);
    assert(x[1].1 == y[1].1);
    assert(x[2].1 == y[2].1);
    assert(x[3].1 == y[3].1);
    assert(x[4].1 == y[4].1);
    assert(x[5].1 == y[5].1);
    assert(x[6].1 == y[6].1);
}

/// A single-use lease is minted exactly if the approval is signed by the human's
/// key, is for this very action, has begun and not ended, was not presented
/// before, and its session is active. The lease is then good for one execution
/// of that action by that session, until the approval ends, and for nothing
/// that could be delegated.
pub proof fn approvals_mint_one_use(
    grant: GrantView,
    vhl_key: Seq<u8>,
    action: ActionView,
    lease_id: Seq<char>,
    issuer_key_id: Seq<char>,
    issuer: Seq<u8>,
    sessions: RegistryView,
    nonces: NoncesView,
    ledger: LedgerView,
    now_ms: i64,
)
    requires
        now_ms >= 0,
    ensures
        ({
            let (_, after, r) = one_shot_minted(
                grant,
                vhl_key,
                action,
                lease_id,
                issuer_key_id,
                issuer,
                sessions,
                nonces,
                ledger,
                now_ms,
            );
            &&& r is Ok <==> {
                &&& signed_by(vhl_key, encode_utf8(grant.signing_text()), grant.signature)
                &&& grant.action_digest == action.digest
                &&& grant.created_at_ms <= now_ms < grant.expires_at_ms
                &&& presented(
                    nonces,
                    grant.nonce,
                    now_ms,
                    (grant.expires_at_ms - now_ms) as i64,
                ).1 is Ok
                &&& sessions.sessions.dom().contains(grant.session_subject)
                &&& sessions.sessions[grant.session_subject].active
                &&& !ledger.accounts.dom().contains(lease_id)
            }
            &&& r is Err ==> after == ledger
            &&& r matches Ok(lease) ==> {
                &&& lease.lease_id == lease_id && lease.parent_id is None
                &&& lease.subject == grant.session_subject
                &&& lease.scope == action.exact_scope()
                &&& lease.approved_action_digest == Some(action.digest)
                &&& lease.limits.single_use && lease.limits.max_executions == Some(1u64)
                &&& lease.limits.not_before_ms == now_ms && lease.issued_at_ms == now_ms
                &&& lease.limits.expires_at_ms == grant.expires_at_ms
                &&& lease.depth == 0 && lease.depth_limit == 1
                &&& lease.issuer_key_id == issuer_key_id && lease.protocol_version == 2
                &&& lease.signature == hex_signature(issuer, encode_utf8(lease.signing_text()))
                &&& forall|d: BudgetDimension| #[trigger]
                    lease.limits.budget.at(d) == (if d == BudgetDimension::Executions {
                        1u64
                    } else {
                        0u64
                    })
                &&& after.accounts.dom().contains(lease_id)
                &&& after.accounts[lease_id].caps == lease.limits.budget
                &&& forall|other: Seq<char>|
                    other != lease_id ==> (#[trigger] after.accounts.dom().contains(other)
                        <==> ledger.accounts.dom().contains(other)) && after.accounts[other]
                        == ledger.accounts[other]
            }
        }),
{
    broadcast use crate::budget::budget_of_at;

    let unsigned = one_shot_document(grant, action, lease_id, issuer_key_id, now_ms);
    super::signing_is_not_covered(
        unsigned,
        hex_signature(issuer, encode_utf8(unsigned.signing_text())),
    );
}

/// A declared host goes into a URL as it is, or, an address with colons, in
/// brackets. It is admitted exactly if it is not empty, holds nothing that would
/// end the authority or start another part, and holds a colon or brackets only
/// as an address of 128 bits.
pub proof fn declared_hosts_stay_hosts(host: Seq<char>)
    ensures
        url_host(host) is Ok <==> {
            &&& host.len() > 0
            &&& forall|i: int|
                0 <= i < host.len() ==> #[trigger] host[i] != '/' && host[i] != '?' && host[i] != '#'
                    && host[i] != '@'
            &&& host[0] == '[' ==> host.len() >= 2 && host[host.len() - 1] == ']' && is_v6(
                host.subrange(1, host.len() - 1),
            )
            &&& host[0] != '[' ==> is_v6(host) || forall|i: int|
                0 <= i < host.len() ==> #[trigger] host[i] != ':'
        },
        url_host(host) matches Ok(h) ==> h == host || (h == "["@ + host + "]"@ && host[0] != '['
            && is_v6(host)),
        url_host(host) matches Ok(h) ==> (host[0] == '[' || lacks(host, ':') ==> h == host),
{
    if host.len() > 0 {
        assert(breaks_authority(host) <==> exists|i: int|
            0 <= i < host.len() && (#[trigger] host[i] == '/' || host[i] == '?' || host[i] == '#'
                || host[i] == '@'));
    }
}

/// A declared destination has the scheme of the URL that its parts make, and the
/// host and the port of that URL are the declared ones.
pub proof fn declared_destinations_survive_parsing(n: NetworkView)
    ensures
        declared_destination(n) matches Ok(d) ==> {
            let url = n.scheme + "://"@ + url_host(n.host)->Ok_0 + ":"@ + decimal(n.port as nat);
            &&& url_host(n.host) is Ok
            &&& destination_of(url) is Ok
            &&& d.scheme == destination_of(url)->Ok_0.0
            &&& d.host == destination_of(url)->Ok_0.1
            &&& n.port == destination_of(url)->Ok_0.2
        },
{
}

} // verus!
