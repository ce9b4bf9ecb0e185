//! Where data may go: classes of data, providers, and the choice of a route.

use crate::lists::views;
use crate::text::{byte_len, is_mixed_name, mixed_name, str_byte_len, str_eq};
use crate::url_parts::{
    parse_url, set_url_path, url_of_text, url_with_path, UrlParts, UrlView,
};
use vstd::prelude::*;

verus! {

/// How sensitive data is.
#[derive(Clone, Copy, Debug, PartialEq, Eq, PartialOrd, Ord, Hash, Structural)]
pub enum DataClass {
    Public,
    Workspace,
    Sensitive,
    Secret,
}

/// Whether an endpoint is on this machine.
#[derive(Clone, Copy, Debug, PartialEq, Eq, PartialOrd, Ord, Hash, Structural)]
pub enum EndpointClass {
    Local,
    Remote,
}

impl DataClass {
    /// Whether data of this class may ever leave the runtime.
    pub fn may_leave_runtime(self) -> (r: bool)
        ensures
            r == (self != DataClass::Secret),
    {
        match self {
            DataClass::Secret => false,
            _ => true,
        }
    }
}

/// Why a value is refused.
#[derive(Clone, Copy, Debug, PartialEq, Eq, Structural)]
pub enum EgressError {
    InvalidProviderId,
    InvalidDataClassPolicy,
    InvalidDestination,
}

impl EgressError {
    /// The message of the error.
    pub open spec fn text(self) -> Seq<char> {
        match self {
            EgressError::InvalidProviderId => "provider ID is invalid"@,
            EgressError::InvalidDataClassPolicy => "data class policy is invalid"@,
            EgressError::InvalidDestination => "destination scope is invalid"@,
        }
    }

    /// The message of the error.
    pub fn message(&self) -> (r: &'static str)
        ensures
            r@ == self.text(),
    {
        match self {
            EgressError::InvalidProviderId => "provider ID is invalid",
            EgressError::InvalidDataClassPolicy => "data class policy is invalid",
            EgressError::InvalidDestination => "destination scope is invalid",
        }
    }
}

/// The name of a provider.
#[derive(Debug, PartialEq, Eq, PartialOrd, Ord, Hash)]
pub struct ProviderId {
    value: String,
}

impl View for ProviderId {
    type V = Seq<char>;

    closed spec fn view(&self) -> Seq<char> {
        self.value@
    }
}

impl Clone for ProviderId {
    fn clone(&self) -> (r: ProviderId)
        ensures
            r@ == self@,
    {
        ProviderId { value: self.value.clone() }
    }
}

impl ProviderId {
    /// Checks and takes the text.
    pub fn parse(value: String) -> (r: Result<ProviderId, EgressError>)
        ensures
            match r {
                Ok(v) => mixed_name(value@, 128) && v@ == value@,
                Err(e) => !(mixed_name(value@, 128)) && e == EgressError::InvalidProviderId,
            },
    {
        if !is_mixed_name(value.as_str(), 128) {
            return Err(EgressError::InvalidProviderId);
        }
        Ok(ProviderId { value })
    }

    /// The text.
    pub fn as_str(&self) -> (r: &str)
        ensures
            r@ == self@,
    {
        self.value.as_str()
    }

    /// Whether both name the same provider.
    pub fn same(&self, other: &ProviderId) -> (r: bool)
        ensures
            r == (self@ == other@),
    {
        str_eq(self.value.as_str(), other.value.as_str())
    }
}

/// The classes in a list.
pub open spec fn class_set(v: Seq<DataClass>) -> Set<DataClass> {
    Set::new(|c: DataClass| v.contains(c))
}

/// A set of classes that a policy may allow: not empty, and without secrets.
pub open spec fn allowable(s: Set<DataClass>) -> bool {
    &&& exists|c: DataClass| s.contains(c)
    &&& !s.contains(DataClass::Secret)
}

/// Whether a list holds a class.
pub fn has_class(v: &Vec<DataClass>, c: DataClass) -> (r: bool)
    ensures
        r == class_set(v@).contains(c),
{
    let mut i: usize = 0;
    while i < v.len()
        invariant
            i <= v@.len(),
            forall|k: int| 0 <= k < i ==> v@[k] != c,
        decreases v@.len() - i,
    {
        if v[i] == c {
            return true;
        }
        i += 1;
    }
    false
}

impl DataClass {
    /// The position in the order of sensitivity.
    pub open spec fn rank(self) -> int {
        match self {
            DataClass::Public => 0,
            DataClass::Workspace => 1,
            DataClass::Sensitive => 2,
            DataClass::Secret => 3,
        }
    }
}

/// The classes stand in ascending order, each once.
pub open spec fn classes_ascend(v: Seq<DataClass>) -> bool {
    forall|i: int, j: int|
        #![trigger v[i], v[j]]
        0 <= i < j < v.len() ==> v[i].rank() < v[j].rank()
}

/// The classes of a list in ascending order, each once.
pub fn ordered_classes(v: &Vec<DataClass>) -> (r: Vec<DataClass>)
    ensures
        classes_ascend(r@),
        class_set(r@) == class_set(v@),
{
    let mut out: Vec<DataClass> = Vec::new();
    let p = has_class(v, DataClass::Public);
    let w = has_class(v, DataClass::Workspace);
    let s = has_class(v, DataClass::Sensitive);
    let x = has_class(v, DataClass::Secret);
    if p {
        out.push(DataClass::Public);
    }
    if w {
        out.push(DataClass::Workspace);
    }
    if s {
        out.push(DataClass::Sensitive);
    }
    if x {
        out.push(DataClass::Secret);
    }
    proof {
        let a: int = if p { 1 } else { 0 };
        let b: int = a + if w { 1int } else { 0 };
        let c: int = b + if s { 1int } else { 0 };
        assert(p ==> out@[0] == DataClass::Public);
        assert(w ==> out@[a] == DataClass::Workspace);
        assert(s ==> out@[b] == DataClass::Sensitive);
        assert(x ==> out@[c] == DataClass::Secret);
        assert forall|k: DataClass| class_set(out@).contains(k) <==> #[trigger] class_set(
            v@,
        ).contains(k) by {
            match k {
                DataClass::Public => {
                    assert(p ==> out@.contains(k));
                },
                DataClass::Workspace => {
                    assert(w ==> out@.contains(k));
                },
                DataClass::Sensitive => {
                    assert(s ==> out@.contains(k));
                },
                DataClass::Secret => {
                    assert(x ==> out@.contains(k));
                },
            }
        }
        assert(class_set(out@) =~= class_set(v@));
    }
    out
}

fn copy_classes(v: &Vec<DataClass>) -> (r: Vec<DataClass>)
    ensures
        r@ == v@,
{
    let mut out: Vec<DataClass> = Vec::new();
    let mut i: usize = 0;
    while i < v.len()
        invariant
            i <= v@.len(),
            out@ == v@.take(i as int),
        decreases v@.len() - i,
    {
        out.push(v[i]);
        proof {
            assert(v@.take(i + 1) =~= v@.take(i as int).push(v@[i as int]));
        }
        i += 1;
    }
    proof {
        assert(v@.take(i as int) =~= v@);
    }
    out
}

fn is_allowable(v: &Vec<DataClass>) -> (r: bool)
    ensures
        r == allowable(class_set(v@)),
{
    if v.len() == 0 {
        return false;
    }
    proof {
        assert(class_set(v@).contains(v@[0]));
    }
    !has_class(v, DataClass::Secret)
}

/// Two ascending lists of the same classes are equal.
pub proof fn ascending_classes_are_unique(a: Seq<DataClass>, b: Seq<DataClass>)
    requires
        classes_ascend(a),
        classes_ascend(b),
        class_set(a) == class_set(b),
    ensures
        a == b,
    decreases a.len(),
{
    if a.len() == 0 {
        if b.len() > 0 {
            assert(class_set(b).contains(b[0]));
        }
        assert(a =~= b);
    } else {
        let x = a.last();
        assert(class_set(a).contains(x));
        assert(b.contains(x));
        let k = choose|k: int| 0 <= k < b.len() && b[k] == x;
        let y = b.last();
        assert(class_set(b).contains(y));
        assert(a.contains(y));
        let l = choose|l: int| 0 <= l < a.len() && a[l] == y;
        assert(k == b.len() - 1) by {
            if k < b.len() - 1 {
                assert(b[k].rank() < b[b.len() - 1].rank());
                if l < a.len() - 1 {
                    assert(a[l].rank() < a[a.len() - 1].rank());
                }
            }
        }
        let c = a.drop_last();
        let d = b.drop_last();
        assert forall|t: DataClass| class_set(c).contains(t) <==> #[trigger] class_set(d).contains(
            t,
        ) by {
            if c.contains(t) {
                let i = choose|i: int| 0 <= i < c.len() && c[i] == t;
                assert(a[i].rank() < a[a.len() - 1].rank());
                assert(class_set(a).contains(t));
                assert(b.contains(t));
                let j = choose|j: int| 0 <= j < b.len() && b[j] == t;
                assert(d[j] == t);
            }
            if d.contains(t) {
                let j = choose|j: int| 0 <= j < d.len() && d[j] == t;
                assert(b[j].rank() < b[b.len() - 1].rank());
                assert(class_set(b).contains(t));
                assert(a.contains(t));
                let i = choose|i: int| 0 <= i < a.len() && a[i] == t;
                assert(c[i] == t);
            }
        }
        assert(class_set(c) =~= class_set(d));
        ascending_classes_are_unique(c, d);
        assert(a =~= c.push(x));
        assert(b =~= d.push(y));
    }
}

/// What a provider may be sent.
#[derive(Debug, PartialEq, Eq)]
pub struct ProviderEgressPolicy {
    provider: ProviderId,
    allowed_data_classes: Vec<DataClass>,
}

/// The model of a `ProviderEgressPolicy`.
pub struct EgressPolicyView {
    pub provider: Seq<char>,
    pub allowed_data_classes: Set<DataClass>,
}

impl View for ProviderEgressPolicy {
    type V = EgressPolicyView;

    closed spec fn view(&self) -> EgressPolicyView {
        EgressPolicyView {
            provider: self.provider@,
            allowed_data_classes: class_set(self.allowed_data_classes@),
        }
    }
}

impl Clone for ProviderEgressPolicy {
    fn clone(&self) -> (r: ProviderEgressPolicy)
        ensures
            r@ == self@,
            r.listed() == self.listed(),
    {
        proof {
            use_type_invariant(self);
        }
        ProviderEgressPolicy {
            provider: self.provider.clone(),
            allowed_data_classes: copy_classes(&self.allowed_data_classes),
        }
    }
}

impl ProviderEgressPolicy {
    /// The classes stand in ascending order, each once, so that equal sets are
    /// equal lists.
    #[verifier::type_invariant]
    spec fn ascends(&self) -> bool {
        classes_ascend(self.allowed_data_classes@)
    }

    /// The classes in the order in which they are held and compared.
    pub closed spec fn listed(&self) -> Seq<DataClass> {
        self.allowed_data_classes@
    }

    /// A policy that allows the given classes.
    pub fn new(provider: ProviderId, allowed_data_classes: Vec<DataClass>) -> (r: Result<
        ProviderEgressPolicy,
        EgressError,
    >)
        ensures
            match r {
                Ok(p) => allowable(class_set(allowed_data_classes@)) && p@ == (EgressPolicyView {
                    provider: provider@,
                    allowed_data_classes: class_set(allowed_data_classes@),
                }) && classes_ascend(p.listed()) && class_set(p.listed())
                    == p@.allowed_data_classes,
                Err(e) => !allowable(class_set(allowed_data_classes@)) && e
                    == EgressError::InvalidDataClassPolicy,
            },
    {
        if !is_allowable(&allowed_data_classes) {
            return Err(EgressError::InvalidDataClassPolicy);
        }
        Ok(
            ProviderEgressPolicy {
                provider,
                allowed_data_classes: ordered_classes(&allowed_data_classes),
            },
        )
    }

    /// The provider.
    pub fn provider(&self) -> (r: &ProviderId)
        ensures
            r@ == self@.provider,
    {
        &self.provider
    }

    /// Whether data of the class may be sent.
    pub fn allows(&self, data_class: DataClass) -> (r: bool)
        ensures
            r == self@.allowed_data_classes.contains(data_class),
    {
        has_class(&self.allowed_data_classes, data_class)
    }
}

/// A provider that data can be routed to.
#[derive(Debug, PartialEq, Eq)]
pub struct ProviderRoute {
    provider: ProviderId,
    endpoint_class: EndpointClass,
    enabled: bool,
    provider_allowed_data_classes: Vec<DataClass>,
    workspace_allowed_data_classes: Option<Vec<DataClass>>,
    priority: u32,
}

/// The model of a `ProviderRoute`.
pub struct RouteView {
    pub provider: Seq<char>,
    pub endpoint_class: EndpointClass,
    pub enabled: bool,
    pub provider_allowed: Set<DataClass>,
    pub workspace_allowed: Option<Set<DataClass>>,
    pub priority: u32,
}

/// The classes in an optional list.
pub open spec fn opt_class_set(v: Option<Vec<DataClass>>) -> Option<Set<DataClass>> {
    match v {
        Some(w) => Some(class_set(w@)),
        None => None,
    }
}

impl View for ProviderRoute {
    type V = RouteView;

    closed spec fn view(&self) -> RouteView {
        RouteView {
            provider: self.provider@,
            endpoint_class: self.endpoint_class,
            enabled: self.enabled,
            provider_allowed: class_set(self.provider_allowed_data_classes@),
            workspace_allowed: opt_class_set(self.workspace_allowed_data_classes),
            priority: self.priority,
        }
    }
}

impl RouteView {
    /// No class that the route names is secret, and no list of them is empty.
    pub open spec fn wf(self) -> bool {
        allowable(self.provider_allowed) && (self.workspace_allowed matches Some(w) ==> allowable(w))
    }

    /// Data of the class may take the route. A remote one also needs the
    /// consent of the workspace.
    pub open spec fn allows(self, data_class: DataClass) -> bool {
        &&& self.enabled
        &&& self.provider_allowed.contains(data_class)
        &&& match self.endpoint_class {
            EndpointClass::Local => true,
            EndpointClass::Remote => self.workspace_allowed matches Some(w) && w.contains(
                data_class,
            ),
        }
    }

    /// The route is of the given kind and data of the class may take it.
    pub open spec fn fits(self, endpoint: EndpointClass, data_class: DataClass) -> bool {
        self.endpoint_class == endpoint && self.allows(data_class)
    }
}

/// The optional list, if there is one, ascends.
pub open spec fn opt_classes_ascend(v: Option<Seq<DataClass>>) -> bool {
    v matches Some(w) ==> classes_ascend(w)
}

impl Clone for ProviderRoute {
    fn clone(&self) -> (r: ProviderRoute)
        ensures
            r@ == self@,
            r.listed() == self.listed(),
            r.workspace_listed() == self.workspace_listed(),
    {
        proof {
            use_type_invariant(self);
        }
        ProviderRoute {
            provider: self.provider.clone(),
            endpoint_class: self.endpoint_class,
            enabled: self.enabled,
            provider_allowed_data_classes: copy_classes(&self.provider_allowed_data_classes),
            workspace_allowed_data_classes: match &self.workspace_allowed_data_classes {
                Some(w) => Some(copy_classes(w)),
                None => None,
            },
            priority: self.priority,
        }
    }
}

impl ProviderRoute {
    /// Both lists of classes stand in ascending order, each class once, so that
    /// equal sets are equal lists.
    #[verifier::type_invariant]
    spec fn ascends(&self) -> bool {
        classes_ascend(self.listed()) && opt_classes_ascend(self.workspace_listed())
    }

    /// The provider's classes in the order in which they are held and compared.
    pub closed spec fn listed(&self) -> Seq<DataClass> {
        self.provider_allowed_data_classes@
    }

    /// The workspace's classes in the order in which they are held and compared.
    pub closed spec fn workspace_listed(&self) -> Option<Seq<DataClass>> {
        match self.workspace_allowed_data_classes {
            Some(w) => Some(w@),
            None => None,
        }
    }

    /// A route.
    pub fn new(
        provider: ProviderId,
        endpoint_class: EndpointClass,
        enabled: bool,
        provider_allowed_data_classes: Vec<DataClass>,
        workspace_allowed_data_classes: Option<Vec<DataClass>>,
        priority: u32,
    ) -> (r: Result<ProviderRoute, EgressError>)
        ensures
            ({
                let v = RouteView {
                    provider: provider@,
                    endpoint_class,
                    enabled,
                    provider_allowed: class_set(provider_allowed_data_classes@),
                    workspace_allowed: opt_class_set(workspace_allowed_data_classes),
                    priority,
                };
                match r {
                    Ok(route) => v.wf() && route@ == v && classes_ascend(route.listed())
                        && opt_classes_ascend(route.workspace_listed()),
                    Err(e) => !v.wf() && e == EgressError::InvalidDataClassPolicy,
                }
            }),
    {
        if !is_allowable(&provider_allowed_data_classes) {
            return Err(EgressError::InvalidDataClassPolicy);
        }
        if let Some(w) = &workspace_allowed_data_classes {
            if !is_allowable(w) {
                return Err(EgressError::InvalidDataClassPolicy);
            }
        }
        let workspace = match &workspace_allowed_data_classes {
            Some(w) => Some(ordered_classes(w)),
            None => None,
        };
        Ok(
            ProviderRoute {
                provider,
                endpoint_class,
                enabled,
                provider_allowed_data_classes: ordered_classes(&provider_allowed_data_classes),
                workspace_allowed_data_classes: workspace,
                priority,
            },
        )
    }

    /// The provider.
    pub fn provider(&self) -> (r: &ProviderId)
        ensures
            r@ == self@.provider,
    {
        &self.provider
    }

    /// The kind of endpoint.
    pub fn endpoint_class(&self) -> (r: EndpointClass)
        ensures
            r == self@.endpoint_class,
    {
        self.endpoint_class
    }

    /// Whether the route is in use.
    pub fn enabled(&self) -> (r: bool)
        ensures
            r == self@.enabled,
    {
        self.enabled
    }

    /// The priority; the lowest comes first.
    pub fn priority(&self) -> (r: u32)
        ensures
            r == self@.priority,
    {
        self.priority
    }

    fn allows(&self, data_class: DataClass) -> (r: bool)
        ensures
            r == self@.allows(data_class),
    {
        if !self.enabled || !has_class(&self.provider_allowed_data_classes, data_class) {
            return false;
        }
        match self.endpoint_class {
            EndpointClass::Local => true,
            EndpointClass::Remote => match &self.workspace_allowed_data_classes {
                Some(w) => has_class(w, data_class),
                None => false,
            },
        }
    }
}

/// Where data is routed.
#[derive(Clone, Debug, PartialEq, Eq)]
pub struct RoutingDecision {
    provider: ProviderId,
    endpoint_class: EndpointClass,
}

/// The model of a `RoutingDecision`.
pub struct RoutingView {
    pub provider: Seq<char>,
    pub endpoint_class: EndpointClass,
}

impl View for RoutingDecision {
    type V = RoutingView;

    closed spec fn view(&self) -> RoutingView {
        RoutingView { provider: self.provider@, endpoint_class: self.endpoint_class }
    }
}

impl RoutingDecision {
    /// To a local provider.
    pub fn local(provider: ProviderId) -> (r: RoutingDecision)
        ensures
            r@ == (RoutingView { provider: provider@, endpoint_class: EndpointClass::Local }),
    {
        RoutingDecision { provider, endpoint_class: EndpointClass::Local }
    }

    /// To a remote provider.
    pub fn remote(provider: ProviderId) -> (r: RoutingDecision)
        ensures
            r@ == (RoutingView { provider: provider@, endpoint_class: EndpointClass::Remote }),
    {
        RoutingDecision { provider, endpoint_class: EndpointClass::Remote }
    }

    /// The provider.
    pub fn provider(&self) -> (r: &ProviderId)
        ensures
            r@ == self@.provider,
    {
        &self.provider
    }

    /// The kind of endpoint.
    pub fn endpoint_class(&self) -> (r: EndpointClass)
        ensures
            r == self@.endpoint_class,
    {
        self.endpoint_class
    }

    /// Whether data leaves this machine.
    pub fn egress_occurred(&self) -> (r: bool)
        ensures
            r == (self@.endpoint_class == EndpointClass::Remote),
    {
        match self.endpoint_class {
            EndpointClass::Remote => true,
            EndpointClass::Local => false,
        }
    }
}

/// Why no route is chosen.
#[derive(Clone, Copy, Debug, PartialEq, Eq, Structural)]
pub enum RoutingFailure {
    SecretDataClass,
    RemoteEgressDenied,
    NoEligibleProvider,
}

impl RoutingFailure {
    /// The message of the error.
    pub open spec fn text(self) -> Seq<char> {
        match self {
            RoutingFailure::SecretDataClass => "secret data may not enter model context"@,
            RoutingFailure::RemoteEgressDenied => "remote egress policy denied every remote provider"@,
            RoutingFailure::NoEligibleProvider => "no eligible model provider is configured"@,
        }
    }

    /// The message of the error.
    pub fn message(&self) -> (r: &'static str)
        ensures
            r@ == self.text(),
    {
        match self {
            RoutingFailure::SecretDataClass => "secret data may not enter model context",
            RoutingFailure::RemoteEgressDenied => "remote egress policy denied every remote provider",
            RoutingFailure::NoEligibleProvider => "no eligible model provider is configured",
        }
    }
}

/// Route `i` is the one to take among those of a kind: it fits, and of the
/// routes that fit it has the lowest priority, the first of equals.
pub open spec fn is_best(
    routes: Seq<RouteView>,
    endpoint: EndpointClass,
    data_class: DataClass,
    i: int,
) -> bool {
    &&& 0 <= i < routes.len()
    &&& routes[i].fits(endpoint, data_class)
    &&& forall|j: int|
        0 <= j < routes.len() && (#[trigger] routes[j]).fits(endpoint, data_class)
            ==> routes[i].priority < routes[j].priority || (routes[i].priority
            == routes[j].priority && i <= j)
}

/// No route of a kind fits.
pub open spec fn none_fits(
    routes: Seq<RouteView>,
    endpoint: EndpointClass,
    data_class: DataClass,
) -> bool {
    forall|j: int| 0 <= j < routes.len() ==> !(#[trigger] routes[j]).fits(endpoint, data_class)
}

/// Some remote route is in use.
pub open spec fn remote_in_use(routes: Seq<RouteView>) -> bool {
    exists|j: int|
        0 <= j < routes.len() && (#[trigger] routes[j]).enabled && routes[j].endpoint_class
            == EndpointClass::Remote
}

fn find_best(routes: &Vec<ProviderRoute>, endpoint: EndpointClass, data_class: DataClass) -> (r:
    Option<usize>)
    ensures
        match r {
            Some(i) => is_best(views(routes@), endpoint, data_class, i as int),
            None => none_fits(views(routes@), endpoint, data_class),
        },
{
    let ghost all = views(routes@);
    let mut best: Option<usize> = None;
    let mut i: usize = 0;
    while i < routes.len()
        invariant
            i <= routes@.len(),
            all == views(routes@),
            match best {
                Some(b) => b < i && all[b as int].fits(endpoint, data_class) && forall|j: int|
                    0 <= j < i && (#[trigger] all[j]).fits(endpoint, data_class)
                        ==> all[b as int].priority < all[j].priority || (all[b as int].priority
                        == all[j].priority && b <= j),
                None => forall|j: int|
                    0 <= j < i ==> !(#[trigger] all[j]).fits(endpoint, data_class),
            },
        decreases routes@.len() - i,
    {
        proof {
            assert(all[i as int] == routes@[i as int]@);
        }
        if routes[i].endpoint_class == endpoint && routes[i].allows(data_class) {
            let better = match best {
                Some(b) => {
                    proof {
                        assert(all[b as int] == routes@[b as int]@);
                    }
                    routes[i].priority < routes[b].priority
                },
                None => true,
            };
            if better {
                best = Some(i);
            }
        }
        i += 1;
    }
    best
}

/// Chooses where data of a class goes: to the best local route that fits, else
/// to the best remote one. Secrets go nowhere.
pub fn select_model_provider(data_class: DataClass, routes: &Vec<ProviderRoute>) -> (r: Result<
    RoutingDecision,
    RoutingFailure,
>)
    ensures
        ({
            let all = views(routes@);
            match r {
                Ok(d) => {
                    &&& data_class != DataClass::Secret
                    &&& d@.endpoint_class == EndpointClass::Remote ==> none_fits(
                        all,
                        EndpointClass::Local,
                        data_class,
                    )
                    &&& exists|i: int|
                        is_best(all, d@.endpoint_class, data_class, i) && d@.provider
                            == #[trigger] all[i].provider
                },
                Err(e) => if data_class == DataClass::Secret {
                    e == RoutingFailure::SecretDataClass
                } else {
                    &&& none_fits(all, EndpointClass::Local, data_class)
                    &&& none_fits(all, EndpointClass::Remote, data_class)
                    &&& e == if remote_in_use(all) {
                        RoutingFailure::RemoteEgressDenied
                    } else {
                        RoutingFailure::NoEligibleProvider
                    }
                },
            }
        }),
{
    let ghost all = views(routes@);
    if data_class == DataClass::Secret {
        return Err(RoutingFailure::SecretDataClass);
    }
    if let Some(i) = find_best(routes, EndpointClass::Local, data_class) {
        proof {
            assert(all[i as int].provider == routes@[i as int]@.provider);
        }
        return Ok(RoutingDecision::local(routes[i].provider.clone()));
    }
    if let Some(i) = find_best(routes, EndpointClass::Remote, data_class) {
        proof {
            assert(all[i as int].provider == routes@[i as int]@.provider);
        }
        return Ok(RoutingDecision::remote(routes[i].provider.clone()));
    }
    let mut k: usize = 0;
    while k < routes.len()
        invariant
            k <= routes@.len(),
            all == views(routes@),
            data_class != DataClass::Secret,
            none_fits(all, EndpointClass::Local, data_class),
            none_fits(all, EndpointClass::Remote, data_class),
            forall|j: int|
                0 <= j < k ==> !((#[trigger] all[j]).enabled && all[j].endpoint_class
                    == EndpointClass::Remote),
        decreases routes@.len() - k,
    {
        proof {
            assert(all[k as int] == routes@[k as int]@);
        }
        if routes[k].enabled && routes[k].endpoint_class == EndpointClass::Remote {
            return Err(RoutingFailure::RemoteEgressDenied);
        }
        k += 1;
    }
    Err(RoutingFailure::NoEligibleProvider)
}

/// There is at most one best route of a kind.
pub proof fn best_route_is_unique(
    routes: Seq<RouteView>,
    endpoint: EndpointClass,
    data_class: DataClass,
    i: int,
    j: int,
)
    requires
        is_best(routes, endpoint, data_class, i),
        is_best(routes, endpoint, data_class, j),
    ensures
        i == j,
{
    assert(routes[i].fits(endpoint, data_class));
    assert(routes[j].fits(endpoint, data_class));
}

/// No route takes secrets.
pub proof fn secrets_take_no_route(route: RouteView)
    requires
        route.wf(),
    ensures
        !route.allows(DataClass::Secret),
{
}

/// Data reaches a remote provider only if both the provider's and the
/// workspace's list name its class.
pub proof fn remote_routes_need_both_lists(route: RouteView, data_class: DataClass)
    requires
        route.fits(EndpointClass::Remote, data_class),
    ensures
        route.provider_allowed.contains(data_class),
        route.workspace_allowed matches Some(w) && w.contains(data_class),
{
}

/// A destination: an HTTPS URL without credentials, query or fragment.
#[derive(Debug, PartialEq, Eq, PartialOrd, Ord, Hash)]
pub struct DestinationScope {
    value: String,
}

impl View for DestinationScope {
    type V = Seq<char>;

    closed spec fn view(&self) -> Seq<char> {
        self.value@
    }
}

impl Clone for DestinationScope {
    fn clone(&self) -> (r: DestinationScope)
        ensures
            r@ == self@,
    {
        DestinationScope { value: self.value.clone() }
    }
}

/// The parts of a URL that can be a destination.
pub open spec fn destination_ok(u: UrlView) -> bool {
    &&& u.scheme == "https"@
    &&& u.host is Some
    &&& u.username.len() == 0
    &&& !u.has_password
    &&& !u.has_query
    &&& !u.has_fragment
}

/// The destination that a text names. A URL without a path is given one, unless
/// 32 bits cannot count the bytes of the longer text.
pub open spec fn destination_of(s: Seq<char>) -> Option<Seq<char>> {
    match url_of_text(s) {
        Ok(u) => if !destination_ok(u) {
            None
        } else if u.path.len() > 0 {
            Some(u.text)
        } else if byte_len(u.text) < u32::MAX {
            url_with_path(s, "/"@)
        } else {
            None
        },
        Err(_) => None,
    }
}

/// Whether a URL with these parts can be a destination.
pub fn can_be_destination(u: &UrlParts) -> (r: bool)
    ensures
        r == destination_ok(u@),
{
    let clear = u.username.as_str().is_empty() && !u.has_password && !u.has_query
        && !u.has_fragment;
    str_eq(u.scheme.as_str(), "https") && u.host.is_some() && clear
}

impl DestinationScope {
    /// Reads a destination.
    pub fn parse(value: &str) -> (r: Result<DestinationScope, EgressError>)
        ensures
            match r {
                Ok(d) => destination_of(value@) == Some(d@),
                Err(e) => destination_of(value@) is None && e == EgressError::InvalidDestination,
            },
    {
        let u = match parse_url(value) {
            Ok(u) => u,
            Err(_) => {
                return Err(EgressError::InvalidDestination);
            },
        };
        if !can_be_destination(&u) {
            return Err(EgressError::InvalidDestination);
        }
        if !u.path.as_str().is_empty() {
            return Ok(DestinationScope { value: u.text });
        }
        proof {
            reveal_strlit("/");
            assert(u@.path.push('/') =~= "/"@);
        }
        if str_byte_len(u.text.as_str()) >= 0xffff_ffff {
            return Err(EgressError::InvalidDestination);
        }
        match set_url_path(value, "/") {
            Some(text) => Ok(DestinationScope { value: text }),
            None => Err(EgressError::InvalidDestination),
        }
    }

    /// The normalized URL.
    pub fn as_str(&self) -> (r: &str)
        ensures
            r@ == self@,
    {
        self.value.as_str()
    }
}

/// Data of a class may take a route exactly if the route is in use, its provider
/// is listed for the class, and, where it leads outside, the workspace lists
/// the class too. The best route of a kind is one that the data may take, and
/// the first with the lowest priority of all that it may take.
pub proof fn the_best_route_is_the_first_of_the_lowest(
    routes: Seq<RouteView>,
    endpoint: EndpointClass,
    data_class: DataClass,
    i: int,
    j: int,
)
    requires
        is_best(routes, endpoint, data_class, i),
        0 <= j < routes.len(),
    ensures
        0 <= i < routes.len(),
        routes[i].enabled,
        routes[i].endpoint_class == endpoint,
        routes[i].provider_allowed.contains(data_class),
        endpoint == EndpointClass::Remote ==> (routes[i].workspace_allowed matches Some(w)
            && w.contains(data_class)),
        routes[j].enabled && routes[j].endpoint_class == endpoint
            && routes[j].provider_allowed.contains(data_class) && (endpoint == EndpointClass::Local
            || (routes[j].workspace_allowed matches Some(w) && w.contains(data_class)))
            ==> routes[i].priority < routes[j].priority || (routes[i].priority
            == routes[j].priority && i <= j),
{
    if routes[j].fits(endpoint, data_class) {
        assert(routes[j].fits(endpoint, data_class));
    }
}

/// Where no route of a kind fits, every route of that kind is out of use, or
/// not listed for the class by its provider, or leads outside without the
/// workspace's consent.
pub proof fn missing_routes_are_closed(
    routes: Seq<RouteView>,
    endpoint: EndpointClass,
    data_class: DataClass,
    j: int,
)
    requires
        none_fits(routes, endpoint, data_class),
        0 <= j < routes.len(),
        routes[j].endpoint_class == endpoint,
    ensures
        !routes[j].enabled || !routes[j].provider_allowed.contains(data_class) || (endpoint
            == EndpointClass::Remote && !(routes[j].workspace_allowed matches Some(w)
            && w.contains(data_class))),
{
    assert(!routes[j].fits(endpoint, data_class));
}

/// A text names a destination only if it is a URL for the secure scheme with a
/// host and without a user, a password, a query and a fragment. Such a URL that
/// has a path is the destination, as its normalized text; one without gets the
/// path of the root.
pub proof fn destinations_are_secure_addresses(s: Seq<char>)
    ensures
        destination_of(s) is Some ==> (url_of_text(s) matches Ok(u) && u.scheme == "https"@ && u.host
            is Some && u.username.len() == 0 && !u.has_password && !u.has_query
            && !u.has_fragment),
        url_of_text(s) matches Ok(u) ==> (u.scheme == "https"@ && u.host is Some && u.username.len()
            == 0 && !u.has_password && !u.has_query && !u.has_fragment ==> {
            &&& u.path.len() > 0 ==> destination_of(s) == Some(u.text)
            &&& u.path.len() == 0 && byte_len(u.text) < u32::MAX ==> destination_of(s)
                == url_with_path(s, "/"@)
        }),
{
}

/// What a policy may allow is some class, and never that of secrets.
pub proof fn allowed_classes_are_some_and_no_secrets(s: Set<DataClass>, c: DataClass)
    ensures
        s.contains(DataClass::Secret) ==> !allowable(s),
        !allowable(Set::empty()),
        s.contains(c) && !s.contains(DataClass::Secret) ==> allowable(s),
{
}

} // verus!
