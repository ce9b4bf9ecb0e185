//! The JSON form of a scope, which a lease's signature covers.

use super::destination::{DestinationView, NetworkDestination};
use super::host::{HostPattern, HostView};
use super::path::{grant_views, PathGrant, PathGrantView};
use super::ports::{PortSet, PortsView};
use super::resource::{AccountRef, AccountView, EffectClass};
use super::scope::{
    account_views, destination_views, json_texts, strings_to_json, ResourceScope, ScopeView,
};
use crate::ip::{ip_text, range_text};
use crate::json::{
    array, integral, integral_none, integral_push, item_models, member_models, no_fields,
    no_members, object, put, string, Json, JsonView,
};
use crate::ordered::{OrderedTable, TextSet};
use crate::text::texts;
use crate::version::VersionReq;
use vstd::prelude::*;

verus! {

/// The JSON value of each tool grant.
pub open spec fn tools_json(tools: Seq<(Seq<char>, Seq<char>)>) -> JsonView {
    JsonView::Object(tools.map_values(|t: (Seq<char>, Seq<char>)| (t.0, JsonView::Str(t.1))))
}

/// The JSON value of the models by provider.
pub open spec fn models_json(models: Seq<(Seq<char>, Seq<Seq<char>>)>) -> JsonView {
    JsonView::Object(
        models.map_values(|m: (Seq<char>, Seq<Seq<char>>)| (m.0, json_texts(m.1))),
    )
}

impl PathGrantView {
    /// The JSON value.
    pub open spec fn json(self) -> JsonView {
        JsonView::Object(
            no_fields().push(
                (
                    "root"@,
                    JsonView::Object(
                        no_fields().push(("components"@, json_texts(self.root.components))).push(
                            ("case_folded"@, JsonView::Bool(self.root.case_folded)),
                        ),
                    ),
                ),
            ).push(
                (
                    "rights"@,
                    JsonView::Object(
                        no_fields().push(("read"@, JsonView::Bool(self.rights.read))).push(
                            ("write"@, JsonView::Bool(self.rights.write)),
                        ),
                    ),
                ),
            ),
        )
    }
}

impl HostView {
    /// The JSON value: the kind of host with its text.
    pub open spec fn json(self) -> JsonView {
        JsonView::Object(
            match self {
                HostView::DnsName(n) => no_fields().push(("DnsName"@, JsonView::Str(n))),
                HostView::DnsWildcard(s) => no_fields().push(("DnsWildcard"@, JsonView::Str(s))),
                HostView::Ip(a) => no_fields().push(("Ip"@, JsonView::Str(ip_text(a)))),
                HostView::IpRange(r) => no_fields().push(
                    ("IpRange"@, JsonView::Str(range_text(r))),
                ),
            },
        )
    }
}

/// The JSON value of a port range.
pub open spec fn port_range_json(r: (u16, u16)) -> JsonView {
    JsonView::Array(
        Seq::<JsonView>::empty().push(JsonView::Int(r.0 as int)).push(JsonView::Int(r.1 as int)),
    )
}

impl PortsView {
    /// The JSON value.
    pub open spec fn json(self) -> JsonView {
        JsonView::Object(
            no_fields().push(
                (
                    "ranges"@,
                    JsonView::Array(self.ranges.map_values(|r: (u16, u16)| port_range_json(r))),
                ),
            ).push(("any"@, JsonView::Bool(self.any))),
        )
    }
}

impl DestinationView {
    /// The JSON value.
    pub open spec fn json(self) -> JsonView {
        JsonView::Object(
            no_fields().push(("scheme"@, JsonView::Str(self.scheme))).push(
                ("host"@, self.host.json()),
            ).push(("ports"@, self.ports.json())).push(("methods"@, json_texts(self.methods))),
        )
    }
}

impl AccountView {
    /// The JSON value.
    pub open spec fn json(self) -> JsonView {
        JsonView::Object(
            no_fields().push(("provider"@, JsonView::Str(self.provider))).push(
                ("account_id"@, JsonView::Str(self.account_id)),
            ),
        )
    }
}

impl EffectClass {
    /// The name on the wire.
    pub open spec fn wire_name(self) -> Seq<char> {
        match self {
            EffectClass::Read => "read"@,
            EffectClass::Write => "write"@,
            EffectClass::Network => "network"@,
            EffectClass::Execute => "execute"@,
            EffectClass::SecretUse => "secret_use"@,
            EffectClass::MessageSend => "message_send"@,
        }
    }

    /// The name on the wire.
    pub fn wire_str(self) -> (r: &'static str)
        ensures
            r@ == self.wire_name(),
    {
        match self {
            EffectClass::Read => "read",
            EffectClass::Write => "write",
            EffectClass::Network => "network",
            EffectClass::Execute => "execute",
            EffectClass::SecretUse => "secret_use",
            EffectClass::MessageSend => "message_send",
        }
    }
}

impl ScopeView {
    /// The JSON value of the whole scope.
    pub open spec fn json(self) -> JsonView {
        JsonView::Object(
            no_fields().push(("tools"@, tools_json(self.tools))).push(
                (
                    "paths"@,
                    JsonView::Array(self.paths.map_values(|p: PathGrantView| p.json())),
                ),
            ).push(
                (
                    "destinations"@,
                    JsonView::Array(self.destinations.map_values(|d: DestinationView| d.json())),
                ),
            ).push(("secrets"@, json_texts(self.secrets))).push(
                (
                    "accounts"@,
                    JsonView::Array(self.accounts.map_values(|a: AccountView| a.json())),
                ),
            ).push(("models"@, models_json(self.models))).push(
                (
                    "effects"@,
                    json_texts(self.effects.map_values(|e: EffectClass| e.wire_name())),
                ),
            ),
        )
    }
}

fn encode_tools(t: &OrderedTable<VersionReq>) -> (r: Json)
    ensures
        r@ == tools_json(t@),
{
    let mut m = no_members();
    let ghost want = tools_json(t@)->Object_0;
    let mut i: usize = 0;
    while i < t.len()
        invariant
            i <= t@.len(),
            want == tools_json(t@)->Object_0,
            member_models(m@) =~= want.take(i as int),
        decreases t@.len() - i,
    {
        put(&mut m, t.key_at(i), string(t.value_at(i).as_str()));
        proof {
            assert(want.take(i + 1) =~= want.take(i as int).push(want[i as int]));
        }
        i += 1;
    }
    proof {
        assert(want.take(i as int) =~= want);
    }
    object(m)
}

fn encode_models(t: &OrderedTable<TextSet>) -> (r: Json)
    ensures
        r@ == models_json(t@),
{
    let mut m = no_members();
    let ghost want = models_json(t@)->Object_0;
    let mut i: usize = 0;
    while i < t.len()
        invariant
            i <= t@.len(),
            want == models_json(t@)->Object_0,
            member_models(m@) =~= want.take(i as int),
        decreases t@.len() - i,
    {
        let classes = t.value_at(i).to_vec();
        put(&mut m, t.key_at(i), strings_to_json(&classes));
        proof {
            assert(want.take(i + 1) =~= want.take(i as int).push(want[i as int]));
        }
        i += 1;
    }
    proof {
        assert(want.take(i as int) =~= want);
    }
    object(m)
}

fn encode_path(p: &PathGrant) -> (r: Json)
    ensures
        r@ == p@.json(),
{
    let mut root = no_members();
    put(&mut root, "components", strings_to_json(p.root.components()));
    put(&mut root, "case_folded", Json::Bool(p.root.case_folded()));
    let mut rights = no_members();
    put(&mut rights, "read", Json::Bool(p.rights.read));
    put(&mut rights, "write", Json::Bool(p.rights.write));
    let mut m = no_members();
    put(&mut m, "root", object(root));
    put(&mut m, "rights", object(rights));
    object(m)
}

fn encode_paths(v: &Vec<PathGrant>) -> (r: Json)
    ensures
        r@ == JsonView::Array(grant_views(v@).map_values(|p: PathGrantView| p.json())),
{
    let mut out: Vec<Json> = Vec::new();
    let mut i: usize = 0;
    while i < v.len()
        invariant
            i <= v@.len(),
            out@.len() == i,
            forall|k: int| 0 <= k < i ==> (#[trigger] out@[k])@ == v@[k]@.json(),
        decreases v@.len() - i,
    {
        out.push(encode_path(&v[i]));
        i += 1;
    }
    proof {
        assert(item_models(out@) =~= grant_views(v@).map_values(|p: PathGrantView| p.json()));
    }
    array(out)
}

fn encode_host(h: &HostPattern) -> (r: Json)
    requires
        h@.wf(),
    ensures
        r@ == h@.json(),
{
    let mut m = no_members();
    match h {
        HostPattern::DnsName(n) => {
            put(&mut m, "DnsName", string(n.as_str()));
        },
        HostPattern::DnsWildcard(s) => {
            put(&mut m, "DnsWildcard", string(s.as_str()));
        },
        HostPattern::Ip(a) => {
            put(&mut m, "Ip", Json::Str(a.to_text()));
        },
        HostPattern::IpRange(r) => {
            put(&mut m, "IpRange", Json::Str(r.to_text()));
        },
    }
    object(m)
}

fn encode_ports(p: &PortSet) -> (r: Json)
    ensures
        r@ == p@.json(),
{
    let ranges = p.ranges();
    let mut out: Vec<Json> = Vec::new();
    let mut i: usize = 0;
    while i < ranges.len()
        invariant
            i <= ranges@.len(),
            out@.len() == i,
            forall|k: int| 0 <= k < i ==> (#[trigger] out@[k])@ == port_range_json(ranges@[k]),
        decreases ranges@.len() - i,
    {
        let mut pair: Vec<Json> = Vec::new();
        pair.push(Json::UInt(ranges[i].0 as u64));
        pair.push(Json::UInt(ranges[i].1 as u64));
        proof {
            assert(item_models(pair@) =~= Seq::<JsonView>::empty().push(
                JsonView::Int(ranges@[i as int].0 as int),
            ).push(JsonView::Int(ranges@[i as int].1 as int)));
        }
        out.push(array(pair));
        i += 1;
    }
    proof {
        assert(item_models(out@) =~= p@.ranges.map_values(|r: (u16, u16)| port_range_json(r)));
    }
    let mut m = no_members();
    put(&mut m, "ranges", array(out));
    put(&mut m, "any", Json::Bool(p.is_any()));
    object(m)
}

fn encode_destination(d: &NetworkDestination) -> (r: Json)
    requires
        d@.host.wf(),
    ensures
        r@ == d@.json(),
{
    let mut m = no_members();
    put(&mut m, "scheme", string(d.scheme.as_str()));
    put(&mut m, "host", encode_host(&d.host));
    put(&mut m, "ports", encode_ports(&d.ports));
    put(&mut m, "methods", strings_to_json(&d.methods));
    object(m)
}

fn encode_destinations(v: &Vec<NetworkDestination>) -> (r: Json)
    requires
        forall|i: int| 0 <= i < v@.len() ==> (#[trigger] destination_views(v@)[i]).host.wf(),
    ensures
        r@ == JsonView::Array(destination_views(v@).map_values(|d: DestinationView| d.json())),
{
    let mut out: Vec<Json> = Vec::new();
    let mut i: usize = 0;
    while i < v.len()
        invariant
            i <= v@.len(),
            out@.len() == i,
            forall|i: int| 0 <= i < v@.len() ==> (#[trigger] destination_views(v@)[i]).host.wf(),
            forall|k: int| 0 <= k < i ==> (#[trigger] out@[k])@ == v@[k]@.json(),
        decreases v@.len() - i,
    {
        proof {
            assert(destination_views(v@)[i as int] == v@[i as int]@);
        }
        out.push(encode_destination(&v[i]));
        i += 1;
    }
    proof {
        assert(item_models(out@) =~= destination_views(v@).map_values(
            |d: DestinationView| d.json(),
        ));
    }
    array(out)
}

fn encode_account(a: &AccountRef) -> (r: Json)
    ensures
        r@ == a@.json(),
{
    let mut m = no_members();
    put(&mut m, "provider", string(a.provider.as_str()));
    put(&mut m, "account_id", string(a.account_id.as_str()));
    object(m)
}

fn encode_accounts(v: &Vec<AccountRef>) -> (r: Json)
    ensures
        r@ == JsonView::Array(account_views(v@).map_values(|a: AccountView| a.json())),
{
    let mut out: Vec<Json> = Vec::new();
    let mut i: usize = 0;
    while i < v.len()
        invariant
            i <= v@.len(),
            out@.len() == i,
            forall|k: int| 0 <= k < i ==> (#[trigger] out@[k])@ == v@[k]@.json(),
        decreases v@.len() - i,
    {
        out.push(encode_account(&v[i]));
        i += 1;
    }
    proof {
        assert(item_models(out@) =~= account_views(v@).map_values(|a: AccountView| a.json()));
    }
    array(out)
}

fn encode_effects(v: &Vec<EffectClass>) -> (r: Json)
    ensures
        r@ == json_texts(v@.map_values(|e: EffectClass| e.wire_name())),
{
    let mut out: Vec<String> = Vec::new();
    let mut i: usize = 0;
    while i < v.len()
        invariant
            i <= v@.len(),
            out@.len() == i,
            forall|k: int| 0 <= k < i ==> (#[trigger] out@[k])@ == v@[k].wire_name(),
        decreases v@.len() - i,
    {
        out.push(v[i].wire_str().to_owned());
        i += 1;
    }
    proof {
        assert(texts(out@) =~= v@.map_values(|e: EffectClass| e.wire_name()));
    }
    strings_to_json(&out)
}

impl ResourceScope {
    /// The JSON value of the whole scope.
    pub fn to_json(&self) -> (r: Json)
        requires
            self@.wf(),
        ensures
            r@ == self@.json(),
    {
        proof {
            assert forall|i: int| 0 <= i < self.destinations@.len() implies (
            #[trigger] destination_views(self.destinations@)[i]).host.wf() by {
                assert(self@.destinations[i].wf());
            }
        }
        let secrets = self.secrets.to_vec();
        let mut m = no_members();
        put(&mut m, "tools", encode_tools(&self.tools));
        put(&mut m, "paths", encode_paths(&self.paths));
        put(&mut m, "destinations", encode_destinations(&self.destinations));
        put(&mut m, "secrets", strings_to_json(&secrets));
        put(&mut m, "accounts", encode_accounts(&self.accounts));
        put(&mut m, "models", encode_models(&self.models));
        put(&mut m, "effects", encode_effects(&self.effects));
        object(m)
    }
}

proof fn texts_are_integral(t: Seq<Seq<char>>)
    ensures
        integral(json_texts(t)),
{
    let items = json_texts(t)->Array_0;
    assert forall|i: int| 0 <= i < items.len() implies integral(#[trigger] items[i]) by {
        assert(items[i] is Str);
    }
}

/// A scope's JSON value holds no number but integers.
pub proof fn scope_is_integral(s: ScopeView)
    ensures
        integral(s.json()),
{
    broadcast use {integral_none, integral_push};

    let tools = tools_json(s.tools);
    assert(integral(tools)) by {
        let m = tools->Object_0;
        assert forall|i: int| 0 <= i < m.len() implies integral((#[trigger] m[i]).1) by {
            assert(m[i].1 is Str);
        }
    }
    let models = models_json(s.models);
    assert(integral(models)) by {
        let m = models->Object_0;
        assert forall|i: int| 0 <= i < m.len() implies integral((#[trigger] m[i]).1) by {
            texts_are_integral(s.models[i].1);
        }
    }
    let paths = JsonView::Array(s.paths.map_values(|p: PathGrantView| p.json()));
    assert(integral(paths)) by {
        let items = paths->Array_0;
        assert forall|i: int| 0 <= i < items.len() implies integral(#[trigger] items[i]) by {
            let p = s.paths[i];
            texts_are_integral(p.root.components);
            assert(items[i] == p.json());
            assert(integral(p.json()));
        }
    }
    let destinations = JsonView::Array(s.destinations.map_values(|d: DestinationView| d.json()));
    assert(integral(destinations)) by {
        let items = destinations->Array_0;
        assert forall|i: int| 0 <= i < items.len() implies integral(#[trigger] items[i]) by {
            let d = s.destinations[i];
            texts_are_integral(d.methods);
            ports_are_integral(d.ports);
            assert(items[i] == d.json());
            assert(integral(d.host.json()));
            assert(integral(d.json()));
        }
    }
    let accounts = JsonView::Array(s.accounts.map_values(|a: AccountView| a.json()));
    assert(integral(accounts)) by {
        let items = accounts->Array_0;
        assert forall|i: int| 0 <= i < items.len() implies integral(#[trigger] items[i]) by {
            assert(items[i] == s.accounts[i].json());
            assert(integral(s.accounts[i].json()));
        }
    }
    texts_are_integral(s.secrets);
    texts_are_integral(s.effects.map_values(|e: EffectClass| e.wire_name()));
    assert(integral(s.json()));
}

proof fn ports_are_integral(p: PortsView)
    ensures
        integral(p.json()),
{
    broadcast use {integral_none, integral_push};

    let ranges = JsonView::Array(p.ranges.map_values(|r: (u16, u16)| port_range_json(r)));
    assert(integral(ranges)) by {
        let items = ranges->Array_0;
        assert forall|i: int| 0 <= i < items.len() implies integral(#[trigger] items[i]) by {
            let pair = port_range_json(p.ranges[i]);
            let numbers = pair->Array_0;
            assert(items[i] == pair);
            assert forall|k: int| 0 <= k < numbers.len() implies integral(#[trigger] numbers[k]) by {
                assert(numbers[k] is Int);
            }
        }
    }
    assert(integral(p.json()));
}

proof fn texts_are_told_apart(a: Seq<Seq<char>>, b: Seq<Seq<char>>)
    requires
        json_texts(a) == json_texts(b),
    ensures
        a == b,
{
    let x = json_texts(a)->Array_0;
    let y = json_texts(b)->Array_0;
    assert(x.len() == a.len() && y.len() == b.len());
    assert forall|i: int| 0 <= i < a.len() implies #[trigger] a[i] == b[i] by {
        assert(x[i] == y[i]);
        assert(x[i] == JsonView::Str(a[i]));
        assert(y[i] == JsonView::Str(b[i]));
    }
    assert(a =~= b);
}

proof fn path_grants_are_told_apart(a: PathGrantView, b: PathGrantView)
    requires
        a.json() == b.json(),
    ensures
        a == b,
{
    let x = a.json()->Object_0;
    let y = b.json()->Object_0;
    assert(x[0].1 == y[0].1);
    assert(x[1].1 == y[1].1);
    let r = x[0].1->Object_0;
    let s = y[0].1->Object_0;
    assert(r[0].1 == s[0].1);
    assert(r[1].1 == s[1].1);
    texts_are_told_apart(a.root.components, b.root.components);
    let t = x[1].1->Object_0;
    let u = y[1].1->Object_0;
    assert(t[0].1 == u[0].1);
    assert(t[1].1 == u[1].1);
}

proof fn hosts_are_told_apart(a: HostView, b: HostView)
    requires
        a.json() == b.json(),
    ensures
        a.form() == b.form(),
        a is DnsName <==> b is DnsName,
        a is DnsWildcard <==> b is DnsWildcard,
        a is Ip <==> b is Ip,
        a is IpRange <==> b is IpRange,
{
    reveal_strlit("DnsName");
    reveal_strlit("DnsWildcard");
    reveal_strlit("Ip");
    reveal_strlit("IpRange");
    let x = a.json()->Object_0;
    let y = b.json()->Object_0;
    let key = x[0].0;
    assert(key == y[0].0);
    assert(x[0].1 == y[0].1);
    assert(key[0] == y[0].0[0] && key.len() == y[0].0.len());
    match a {
        HostView::DnsName(n) => {
            assert(x[0] == ("DnsName"@, JsonView::Str(n)));
        },
        HostView::DnsWildcard(s) => {
            assert(x[0] == ("DnsWildcard"@, JsonView::Str(s)));
        },
        HostView::Ip(i) => {
            assert(x[0] == ("Ip"@, JsonView::Str(ip_text(i))));
        },
        HostView::IpRange(r) => {
            assert(x[0] == ("IpRange"@, JsonView::Str(range_text(r))));
        },
    }
    match b {
        HostView::DnsName(n) => {
            assert(y[0] == ("DnsName"@, JsonView::Str(n)));
        },
        HostView::DnsWildcard(s) => {
            assert(y[0] == ("DnsWildcard"@, JsonView::Str(s)));
        },
        HostView::Ip(i) => {
            assert(y[0] == ("Ip"@, JsonView::Str(ip_text(i))));
        },
        HostView::IpRange(r) => {
            assert(y[0] == ("IpRange"@, JsonView::Str(range_text(r))));
        },
    }
}

proof fn ports_are_told_apart(a: PortsView, b: PortsView)
    requires
        a.json() == b.json(),
    ensures
        a == b,
{
    let x = a.json()->Object_0;
    let y = b.json()->Object_0;
    assert(x[0].1 == y[0].1);
    assert(x[1].1 == y[1].1);
    let r = x[0].1->Array_0;
    let s = y[0].1->Array_0;
    assert(r.len() == a.ranges.len() && s.len() == b.ranges.len());
    assert forall|i: int| 0 <= i < a.ranges.len() implies #[trigger] a.ranges[i] == b.ranges[i] by {
        assert(r[i] == s[i]);
        let p = port_range_json(a.ranges[i])->Array_0;
        let q = port_range_json(b.ranges[i])->Array_0;
        assert(p == q);
        assert(p[0] == q[0]);
        assert(p[1] == q[1]);
    }
    assert(a.ranges =~= b.ranges);
}

/// The destinations agree in all but how their hosts are held: the hosts have
/// the same kind and the same canonical form.
pub open spec fn same_destination(a: DestinationView, b: DestinationView) -> bool {
    &&& a.scheme == b.scheme
    &&& a.ports == b.ports
    &&& a.methods == b.methods
    &&& a.host.form() == b.host.form()
    &&& (a.host is DnsName <==> b.host is DnsName)
    &&& (a.host is DnsWildcard <==> b.host is DnsWildcard)
    &&& (a.host is Ip <==> b.host is Ip)
}

proof fn destinations_are_told_apart(a: DestinationView, b: DestinationView)
    requires
        a.json() == b.json(),
    ensures
        same_destination(a, b),
{
    let x = a.json()->Object_0;
    let y = b.json()->Object_0;
    assert(x[0].1 == y[0].1);
    assert(x[1].1 == y[1].1);
    assert(x[2].1 == y[2].1);
    assert(x[3].1 == y[3].1);
    assert(x[1].1 == a.host.json() && y[1].1 == b.host.json());
    assert(x[2].1 == a.ports.json() && y[2].1 == b.ports.json());
    hosts_are_told_apart(a.host, b.host);
    ports_are_told_apart(a.ports, b.ports);
    texts_are_told_apart(a.methods, b.methods);
}

proof fn effect_names_differ(a: EffectClass, b: EffectClass)
    ensures
        a.wire_name() == b.wire_name() ==> a == b,
{
    reveal_strlit("read");
    reveal_strlit("write");
    reveal_strlit("network");
    reveal_strlit("execute");
    reveal_strlit("secret_use");
    reveal_strlit("message_send");
    let (s, t) = (a.wire_name(), b.wire_name());
    assert(s == t ==> s.len() == t.len() && s[0] == t[0]);
}

/// The JSON value of a scope holds the whole scope: two scopes with the same
/// value grant the same tools, paths, destinations, secrets, accounts, models
/// and effects.
pub proof fn scopes_are_told_apart(a: ScopeView, b: ScopeView)
    requires
        a.json() == b.json(),
    ensures
        a.tools == b.tools,
        a.paths == b.paths,
        a.destinations.len() == b.destinations.len(),
        forall|i: int|
            0 <= i < a.destinations.len() ==> same_destination(
                #[trigger] a.destinations[i],
                b.destinations[i],
            ),
        a.secrets == b.secrets,
        a.accounts == b.accounts,
        a.models == b.models,
        a.effects == b.effects,
{
    let x = a.json()->Object_0;
    let y = b.json()->Object_0;
    assert(x[0].1 == y[0].1);
    assert(x[1].1 == y[1].1);
    assert(x[2].1 == y[2].1);
    assert(x[3].1 == y[3].1);
    assert(x[4].1 == y[4].1);
    assert(x[5].1 == y[5].1);
    assert(x[6].1 == y[6].1);
    let (t, u) = (x[0].1->Object_0, y[0].1->Object_0);
    assert(t.len() == a.tools.len() && u.len() == b.tools.len());
    assert forall|i: int| 0 <= i < a.tools.len() implies #[trigger] a.tools[i] == b.tools[i] by {
        assert(t[i] == u[i]);
        assert(t[i] == (a.tools[i].0, JsonView::Str(a.tools[i].1)));
        assert(u[i] == (b.tools[i].0, JsonView::Str(b.tools[i].1)));
    }
    assert(a.tools =~= b.tools);
    let (p, q) = (x[1].1->Array_0, y[1].1->Array_0);
    assert(p.len() == a.paths.len() && q.len() == b.paths.len());
    assert forall|i: int| 0 <= i < a.paths.len() implies #[trigger] a.paths[i] == b.paths[i] by {
        assert(p[i] == q[i]);
        path_grants_are_told_apart(a.paths[i], b.paths[i]);
    }
    assert(a.paths =~= b.paths);
    let (d, e) = (x[2].1->Array_0, y[2].1->Array_0);
    assert(d.len() == a.destinations.len() && e.len() == b.destinations.len());
    assert forall|i: int| 0 <= i < a.destinations.len() implies same_destination(
        #[trigger] a.destinations[i],
        b.destinations[i],
    ) by {
        assert(d[i] == e[i]);
        destinations_are_told_apart(a.destinations[i], b.destinations[i]);
    }
    texts_are_told_apart(a.secrets, b.secrets);
    let (f, g) = (x[4].1->Array_0, y[4].1->Array_0);
    assert(f.len() == a.accounts.len() && g.len() == b.accounts.len());
    assert forall|i: int| 0 <= i < a.accounts.len() implies #[trigger] a.accounts[i]
        == b.accounts[i] by {
        assert(f[i] == g[i]);
        let v = a.accounts[i].json()->Object_0;
        let w = b.accounts[i].json()->Object_0;
        assert(v == w);
        assert(v[0].1 == w[0].1);
        assert(v[1].1 == w[1].1);
    }
    assert(a.accounts =~= b.accounts);
    let (m, n) = (x[5].1->Object_0, y[5].1->Object_0);
    assert(m.len() == a.models.len() && n.len() == b.models.len());
    assert forall|i: int| 0 <= i < a.models.len() implies #[trigger] a.models[i] == b.models[i] by {
        assert(m[i] == n[i]);
        assert(m[i] == (a.models[i].0, json_texts(a.models[i].1)));
        assert(n[i] == (b.models[i].0, json_texts(b.models[i].1)));
        texts_are_told_apart(a.models[i].1, b.models[i].1);
    }
    assert(a.models =~= b.models);
    let (h, k) = (
        a.effects.map_values(|c: EffectClass| c.wire_name()),
        b.effects.map_values(|c: EffectClass| c.wire_name()),
    );
    texts_are_told_apart(h, k);
    assert(h.len() == a.effects.len() && k.len() == b.effects.len());
    assert forall|i: int| 0 <= i < a.effects.len() implies #[trigger] a.effects[i]
        == b.effects[i] by {
        assert(h[i] == k[i]);
        effect_names_differ(a.effects[i], b.effects[i]);
    }
    assert(a.effects =~= b.effects);
}

} // verus!
