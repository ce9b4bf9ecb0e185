//! Model providers: their endpoints, their profiles, and what binds the two.

use crate::egress::{EndpointClass, ProviderId};
use crate::ip::{
    ip_class, ip_of_text, parse_ip, v4_classes_go_by_place, IpAddress, NetworkClass,
};
use crate::model::{ModelOutput, OutputView};
use crate::secret::SecretRefId;
use crate::text::{
    byte_len, ascii_alike, eq_ignore_ascii_case, is_mixed_name, is_plain_text, lacks_control, mixed_name,
    no_control, plain_text, str_byte_len, str_eq, to_chars,
};
use crate::url_parts::{
    parse_url, set_url_path, url_of_text, url_with_path, UrlHost, UrlHostView, UrlParts, UrlView,
};
use vstd::prelude::*;

verus! {

/// How long a request may take, in seconds, where nothing else is set.
pub const DEFAULT_PROVIDER_TIMEOUT: u64 = 120;

/// How long a response may be, in bytes, where nothing else is set.
pub const DEFAULT_PROVIDER_MAX_RESPONSE_BYTES: usize = 4194304;

/// The protocol of a provider.
#[derive(Clone, Copy, Debug, PartialEq, Eq, PartialOrd, Ord, Hash, Structural)]
pub enum ProviderKind {
    OpenAi,
    Anthropic,
    OpenAiCompatible,
}

impl ProviderKind {
    /// The name on the wire.
    pub open spec fn name(self) -> Seq<char> {
        match self {
            ProviderKind::OpenAi => "openai"@,
            ProviderKind::Anthropic => "anthropic"@,
            ProviderKind::OpenAiCompatible => "openai_compatible"@,
        }
    }

    /// The name on the wire.
    pub fn as_str(self) -> (r: &'static str)
        ensures
            r@ == self.name(),
    {
        match self {
            ProviderKind::OpenAi => "openai",
            ProviderKind::Anthropic => "anthropic",
            ProviderKind::OpenAiCompatible => "openai_compatible",
        }
    }

    /// The value with the given name.
    pub fn parse(value: &str) -> (r: Option<ProviderKind>)
        ensures
            match r {
                Some(v) => v.name() == value@,
                None => (forall|v: ProviderKind| #[trigger] v.name() != value@),
            },
    {
        let r = if str_eq(value, "openai") {
            Some(ProviderKind::OpenAi)
        } else if str_eq(value, "anthropic") {
            Some(ProviderKind::Anthropic)
        } else if str_eq(value, "openai_compatible") {
            Some(ProviderKind::OpenAiCompatible)
        } else {
            None
        };
        r
    }
}

/// No two values share a name.
pub proof fn provider_kind_names_differ(a: ProviderKind, b: ProviderKind)
    requires
        a.name() == b.name(),
    ensures
        a == b,
{
    reveal_strlit("openai");
    reveal_strlit("anthropic");
    reveal_strlit("openai_compatible");
    assert("openai"@.len() == 6);
    assert("anthropic"@.len() == 9);
    assert("openai_compatible"@.len() == 17);
}

/// What serves a local model.
#[derive(Clone, Copy, Debug, PartialEq, Eq, PartialOrd, Ord, Hash, Structural)]
pub enum LocalRuntimeKind {
    Ollama,
    LlamaCpp,
    Vllm,
}

impl LocalRuntimeKind {
    /// The name on the wire.
    pub open spec fn name(self) -> Seq<char> {
        match self {
            LocalRuntimeKind::Ollama => "ollama"@,
            LocalRuntimeKind::LlamaCpp => "llama_cpp"@,
            LocalRuntimeKind::Vllm => "vllm"@,
        }
    }

    /// The name on the wire.
    pub fn as_str(self) -> (r: &'static str)
        ensures
            r@ == self.name(),
    {
        match self {
            LocalRuntimeKind::Ollama => "ollama",
            LocalRuntimeKind::LlamaCpp => "llama_cpp",
            LocalRuntimeKind::Vllm => "vllm",
        }
    }

    /// The value with the given name.
    pub fn parse(value: &str) -> (r: Option<LocalRuntimeKind>)
        ensures
            match r {
                Some(v) => v.name() == value@,
                None => (forall|v: LocalRuntimeKind| #[trigger] v.name() != value@),
            },
    {
        let r = if str_eq(value, "ollama") {
            Some(LocalRuntimeKind::Ollama)
        } else if str_eq(value, "llama_cpp") {
            Some(LocalRuntimeKind::LlamaCpp)
        } else if str_eq(value, "vllm") {
            Some(LocalRuntimeKind::Vllm)
        } else {
            None
        };
        r
    }
}

/// No two values share a name.
pub proof fn local_runtime_kind_names_differ(a: LocalRuntimeKind, b: LocalRuntimeKind)
    requires
        a.name() == b.name(),
    ensures
        a == b,
{
    reveal_strlit("ollama");
    reveal_strlit("llama_cpp");
    reveal_strlit("vllm");
    assert("ollama"@.len() == 6);
    assert("llama_cpp"@.len() == 9);
    assert("vllm"@.len() == 4);
}

/// What a model can do.
#[derive(Clone, Copy, Debug, PartialEq, Eq, PartialOrd, Ord, Hash, Structural)]
pub enum ModelCapability {
    Text,
    StructuredOutput,
    ToolCalling,
    CodeGeneration,
    LongContext,
    Reasoning,
    Streaming,
    Vision,
}

impl ModelCapability {
    /// The name on the wire.
    pub open spec fn name(self) -> Seq<char> {
        match self {
            ModelCapability::Text => "text"@,
            ModelCapability::StructuredOutput => "structured_output"@,
            ModelCapability::ToolCalling => "tool_calling"@,
            ModelCapability::CodeGeneration => "code_generation"@,
            ModelCapability::LongContext => "long_context"@,
            ModelCapability::Reasoning => "reasoning"@,
            ModelCapability::Streaming => "streaming"@,
            ModelCapability::Vision => "vision"@,
        }
    }

    /// The name on the wire.
    pub fn as_str(self) -> (r: &'static str)
        ensures
            r@ == self.name(),
    {
        match self {
            ModelCapability::Text => "text",
            ModelCapability::StructuredOutput => "structured_output",
            ModelCapability::ToolCalling => "tool_calling",
            ModelCapability::CodeGeneration => "code_generation",
            ModelCapability::LongContext => "long_context",
            ModelCapability::Reasoning => "reasoning",
            ModelCapability::Streaming => "streaming",
            ModelCapability::Vision => "vision",
        }
    }
}

impl ModelCapability {
    /// The position in the order of capabilities.
    pub open spec fn rank(self) -> int {
        match self {
            ModelCapability::Text => 0,
            ModelCapability::StructuredOutput => 1,
            ModelCapability::ToolCalling => 2,
            ModelCapability::CodeGeneration => 3,
            ModelCapability::LongContext => 4,
            ModelCapability::Reasoning => 5,
            ModelCapability::Streaming => 6,
            ModelCapability::Vision => 7,
        }
    }
}

/// A set of capabilities.
#[derive(Debug, PartialEq, Eq)]
pub struct ModelCapabilities {
    values: Vec<ModelCapability>,
}

impl View for ModelCapabilities {
    type V = Set<ModelCapability>;

    closed spec fn view(&self) -> Set<ModelCapability> {
        capability_set(self.values@)
    }
}

/// The capabilities in a list.
pub open spec fn capability_set(v: Seq<ModelCapability>) -> Set<ModelCapability> {
    Set::new(|c: ModelCapability| v.contains(c))
}

/// The capabilities stand in ascending order, each once.
pub open spec fn ranked(v: Seq<ModelCapability>) -> bool {
    forall|i: int, j: int|
        #![trigger v[i], v[j]]
        0 <= i < j < v.len() ==> v[i].rank() < v[j].rank()
}

fn has_capability(v: &Vec<ModelCapability>, c: ModelCapability) -> (r: bool)
    ensures
        r == v@.contains(c),
{
    let mut i: usize = 0;
    while i < v.len()
        invariant
            i <= v@.len(),
            forall|k: int| 0 <= k < i ==> v@[k] != c,
        decreases v@.len() - i,
    {
        if v[i] == c {
            return true;
        }
        i += 1;
    }
    false
}

/// The list with `c` behind it, if the set holds `c`.
pub open spec fn with_member(
    list: Seq<ModelCapability>,
    s: Set<ModelCapability>,
    c: ModelCapability,
) -> Seq<ModelCapability> {
    if s.contains(c) {
        list.push(c)
    } else {
        list
    }
}

/// The capabilities of a set in ascending order.
pub open spec fn in_order(s: Set<ModelCapability>) -> Seq<ModelCapability> {
    let l0 = Seq::<ModelCapability>::empty();
    let l1 = with_member(l0, s, ModelCapability::Text);
    let l2 = with_member(l1, s, ModelCapability::StructuredOutput);
    let l3 = with_member(l2, s, ModelCapability::ToolCalling);
    let l4 = with_member(l3, s, ModelCapability::CodeGeneration);
    let l5 = with_member(l4, s, ModelCapability::LongContext);
    let l6 = with_member(l5, s, ModelCapability::Reasoning);
    let l7 = with_member(l6, s, ModelCapability::Streaming);
    let l8 = with_member(l7, s, ModelCapability::Vision);
    l8
}

/// The list in ascending order ascends and holds the capabilities of the set.
pub proof fn in_order_is_ranked(s: Set<ModelCapability>)
    ensures
        ranked(in_order(s)),
        capability_set(in_order(s)) == s,
{
    let l0 = Seq::<ModelCapability>::empty();
    let l1 = with_member(l0, s, ModelCapability::Text);
    member_added(l0, s, ModelCapability::Text);
    let l2 = with_member(l1, s, ModelCapability::StructuredOutput);
    member_added(l1, s, ModelCapability::StructuredOutput);
    let l3 = with_member(l2, s, ModelCapability::ToolCalling);
    member_added(l2, s, ModelCapability::ToolCalling);
    let l4 = with_member(l3, s, ModelCapability::CodeGeneration);
    member_added(l3, s, ModelCapability::CodeGeneration);
    let l5 = with_member(l4, s, ModelCapability::LongContext);
    member_added(l4, s, ModelCapability::LongContext);
    let l6 = with_member(l5, s, ModelCapability::Reasoning);
    member_added(l5, s, ModelCapability::Reasoning);
    let l7 = with_member(l6, s, ModelCapability::Streaming);
    member_added(l6, s, ModelCapability::Streaming);
    let l8 = with_member(l7, s, ModelCapability::Vision);
    member_added(l7, s, ModelCapability::Vision);
    assert forall|x: ModelCapability| capability_set(l8).contains(x) <==> #[trigger] s.contains(
        x,
    ) by {
        assert(x.rank() < 8);
        assert(l8.contains(x) <==> s.contains(x));
    }
    assert(capability_set(l8) =~= s);
}

proof fn member_added(list: Seq<ModelCapability>, s: Set<ModelCapability>, c: ModelCapability)
    requires
        ranked(list),
        forall|i: int| 0 <= i < list.len() ==> (#[trigger] list[i]).rank() < c.rank(),
        forall|x: ModelCapability|
            x.rank() < c.rank() ==> (#[trigger] list.contains(x) <==> s.contains(x)),
    ensures
        ranked(with_member(list, s, c)),
        forall|i: int|
            0 <= i < with_member(list, s, c).len() ==> (#[trigger] with_member(
                list,
                s,
                c,
            )[i]).rank() < c.rank() + 1,
        forall|x: ModelCapability|
            x.rank() < c.rank() + 1 ==> (#[trigger] with_member(list, s, c).contains(x)
                <==> s.contains(x)),
{
    let out = with_member(list, s, c);
    assert forall|x: ModelCapability| x.rank() < c.rank() + 1 implies (#[trigger] out.contains(x)
        <==> s.contains(x)) by {
        if s.contains(c) {
            assert(out[list.len() as int] == c);
            if x.rank() < c.rank() {
                if list.contains(x) {
                    let k = choose|k: int| 0 <= k < list.len() && list[k] == x;
                    assert(out[k] == x);
                }
                if out.contains(x) {
                    let k = choose|k: int| 0 <= k < out.len() && out[k] == x;
                    assert(list[k] == x);
                }
            } else {
                assert(x == c);
            }
        } else if x.rank() == c.rank() {
            assert(x == c);
            if out.contains(x) {
                let k = choose|k: int| 0 <= k < out.len() && out[k] == x;
                assert(out[k].rank() < c.rank());
            }
        }
    }
}

fn add_member(list: &mut Vec<ModelCapability>, from: &Vec<ModelCapability>, c: ModelCapability)
    ensures
        final(list)@ == with_member(old(list)@, capability_set(from@), c),
{
    if has_capability(from, c) {
        list.push(c);
    }
}

/// The capabilities of a list in ascending order, each once.
fn ordered_capabilities(v: &Vec<ModelCapability>) -> (r: Vec<ModelCapability>)
    ensures
        r@ == in_order(capability_set(v@)),
{
    let mut out: Vec<ModelCapability> = Vec::new();
    add_member(&mut out, v, ModelCapability::Text);
    add_member(&mut out, v, ModelCapability::StructuredOutput);
    add_member(&mut out, v, ModelCapability::ToolCalling);
    add_member(&mut out, v, ModelCapability::CodeGeneration);
    add_member(&mut out, v, ModelCapability::LongContext);
    add_member(&mut out, v, ModelCapability::Reasoning);
    add_member(&mut out, v, ModelCapability::Streaming);
    add_member(&mut out, v, ModelCapability::Vision);
    out
}

fn copy_capabilities(v: &Vec<ModelCapability>) -> (r: Vec<ModelCapability>)
    ensures
        r@ == v@,
{
    let mut out: Vec<ModelCapability> = Vec::new();
    let mut i: usize = 0;
    while i < v.len()
        invariant
            i <= v@.len(),
            out@ == v@.take(i as int),
        decreases v@.len() - i,
    {
        out.push(v[i]);
        proof {
            assert(v@.take(i + 1) =~= v@.take(i as int).push(v@[i as int]));
        }
        i += 1;
    }
    proof {
        assert(v@.take(i as int) =~= v@);
    }
    out
}

impl ModelCapabilities {
    /// The members stand in ascending order, each once, so that equal sets are
    /// equal lists.
    #[verifier::type_invariant]
    spec fn ascends(&self) -> bool {
        self.values@ == in_order(capability_set(self.values@))
    }

    /// The members in the order in which they are held and compared.
    pub closed spec fn listed(&self) -> Seq<ModelCapability> {
        self.values@
    }

    /// The set of the given capabilities.
    pub fn new(values: Vec<ModelCapability>) -> (r: ModelCapabilities)
        ensures
            r@ == capability_set(values@),
            r.listed() == in_order(capability_set(values@)),
    {
        let ordered = ordered_capabilities(&values);
        proof {
            in_order_is_ranked(capability_set(values@));
        }
        ModelCapabilities { values: ordered }
    }

    /// Whether the set holds a capability.
    pub fn contains(&self, value: ModelCapability) -> (r: bool)
        ensures
            r == self@.contains(value),
    {
        has_capability(&self.values, value)
    }

    /// The capabilities in ascending order.
    pub fn iter(&self) -> (r: Vec<ModelCapability>)
        ensures
            r@ == in_order(self@),
            r@ == self.listed(),
    {
        proof {
            use_type_invariant(self);
        }
        copy_capabilities(&self.values)
    }
}

impl Clone for ModelCapabilities {
    fn clone(&self) -> (r: ModelCapabilities)
        ensures
            r@ == self@,
            r.listed() == self.listed(),
    {
        proof {
            use_type_invariant(self);
        }
        ModelCapabilities { values: copy_capabilities(&self.values) }
    }
}

impl Default for ModelCapabilities {
    fn default() -> (r: ModelCapabilities)
        ensures
            r@ == Set::<ModelCapability>::empty(),
    {
        let r = ModelCapabilities { values: Vec::new() };
        proof {
            assert(r@ =~= Set::<ModelCapability>::empty());
        }
        r
    }
}

/// How far a model is trusted.
#[derive(Clone, Copy, Debug, PartialEq, Eq, PartialOrd, Ord, Hash, Structural)]
pub enum ModelTrustZone {
    LocalTrusted,
    LocalRestricted,
    RemoteApproved,
    RemoteUntrusted,
}

impl ModelTrustZone {
    /// The name on the wire.
    pub open spec fn name(self) -> Seq<char> {
        match self {
            ModelTrustZone::LocalTrusted => "local_trusted"@,
            ModelTrustZone::LocalRestricted => "local_restricted"@,
            ModelTrustZone::RemoteApproved => "remote_approved"@,
            ModelTrustZone::RemoteUntrusted => "remote_untrusted"@,
        }
    }

    /// The name on the wire.
    pub fn as_str(self) -> (r: &'static str)
        ensures
            r@ == self.name(),
    {
        match self {
            ModelTrustZone::LocalTrusted => "local_trusted",
            ModelTrustZone::LocalRestricted => "local_restricted",
            ModelTrustZone::RemoteApproved => "remote_approved",
            ModelTrustZone::RemoteUntrusted => "remote_untrusted",
        }
    }

    /// The value with the given name.
    pub fn parse(value: &str) -> (r: Option<ModelTrustZone>)
        ensures
            match r {
                Some(v) => v.name() == value@,
                None => (forall|v: ModelTrustZone| #[trigger] v.name() != value@),
            },
    {
        let r = if str_eq(value, "local_trusted") {
            Some(ModelTrustZone::LocalTrusted)
        } else if str_eq(value, "local_restricted") {
            Some(ModelTrustZone::LocalRestricted)
        } else if str_eq(value, "remote_approved") {
            Some(ModelTrustZone::RemoteApproved)
        } else if str_eq(value, "remote_untrusted") {
            Some(ModelTrustZone::RemoteUntrusted)
        } else {
            None
        };
        r
    }
}

/// No two values share a name.
pub proof fn model_trust_zone_names_differ(a: ModelTrustZone, b: ModelTrustZone)
    requires
        a.name() == b.name(),
    ensures
        a == b,
{
    reveal_strlit("local_trusted");
    reveal_strlit("local_restricted");
    reveal_strlit("remote_approved");
    reveal_strlit("remote_untrusted");
    assert("local_trusted"@.len() == 13);
    assert("local_restricted"@.len() == 16);
    assert("remote_approved"@.len() == 15);
    assert("remote_untrusted"@.len() == 16);
    assert("local_restricted"@[0] != "remote_untrusted"@[0]);
}

/// Why a configuration is refused.
#[derive(Clone, Debug, PartialEq, Eq)]
pub enum ProviderConfigError {
    /// The endpoint is no URL, for the given reason.
    InvalidUrl(String),
    InvalidRevision,
    InvalidEndpoint,
    RemoteMustUseHttps,
    LocalMustBeLoopback,
    InvalidShape,
    InvalidProfileId,
    InvalidModelName,
    InvalidLimits,
    TextRequired,
}

/// The model of a `ProviderConfigError`.
pub enum ConfigErrorView {
    InvalidUrl(Seq<char>),
    InvalidRevision,
    InvalidEndpoint,
    RemoteMustUseHttps,
    LocalMustBeLoopback,
    InvalidShape,
    InvalidProfileId,
    InvalidModelName,
    InvalidLimits,
    TextRequired,
}

impl View for ProviderConfigError {
    type V = ConfigErrorView;

    open spec fn view(&self) -> ConfigErrorView {
        match *self {
            ProviderConfigError::InvalidUrl(s) => ConfigErrorView::InvalidUrl(s@),
            ProviderConfigError::InvalidRevision => ConfigErrorView::InvalidRevision,
            ProviderConfigError::InvalidEndpoint => ConfigErrorView::InvalidEndpoint,
            ProviderConfigError::RemoteMustUseHttps => ConfigErrorView::RemoteMustUseHttps,
            ProviderConfigError::LocalMustBeLoopback => ConfigErrorView::LocalMustBeLoopback,
            ProviderConfigError::InvalidShape => ConfigErrorView::InvalidShape,
            ProviderConfigError::InvalidProfileId => ConfigErrorView::InvalidProfileId,
            ProviderConfigError::InvalidModelName => ConfigErrorView::InvalidModelName,
            ProviderConfigError::InvalidLimits => ConfigErrorView::InvalidLimits,
            ProviderConfigError::TextRequired => ConfigErrorView::TextRequired,
        }
    }
}

impl ConfigErrorView {
    /// The message of the error.
    pub open spec fn message(self) -> Seq<char> {
        match self {
            ConfigErrorView::InvalidUrl(s) => s,
            ConfigErrorView::InvalidRevision => "provider revision must be > 0"@,
            ConfigErrorView::InvalidEndpoint => "provider endpoint is invalid"@,
            ConfigErrorView::RemoteMustUseHttps => "remote provider must use non-loopback HTTPS"@,
            ConfigErrorView::LocalMustBeLoopback => "local provider must use loopback HTTP(S)"@,
            ConfigErrorView::InvalidShape => "provider shape is invalid"@,
            ConfigErrorView::InvalidProfileId => "model profile ID is invalid"@,
            ConfigErrorView::InvalidModelName => "model name is invalid"@,
            ConfigErrorView::InvalidLimits => "model limits must be > 0"@,
            ConfigErrorView::TextRequired => "text capability is required"@,
        }
    }
}

impl ProviderConfigError {
    /// The message of the error.
    pub fn message(&self) -> (r: String)
        ensures
            r@ == self@.message(),
    {
        match self {
            ProviderConfigError::InvalidUrl(s) => s.clone(),
            ProviderConfigError::InvalidRevision => "provider revision must be > 0".to_owned(),
            ProviderConfigError::InvalidEndpoint => "provider endpoint is invalid".to_owned(),
            ProviderConfigError::RemoteMustUseHttps =>
                "remote provider must use non-loopback HTTPS".to_owned(),
            ProviderConfigError::LocalMustBeLoopback => "local provider must use loopback HTTP(S)".to_owned(),
            ProviderConfigError::InvalidShape => "provider shape is invalid".to_owned(),
            ProviderConfigError::InvalidProfileId => "model profile ID is invalid".to_owned(),
            ProviderConfigError::InvalidModelName => "model name is invalid".to_owned(),
            ProviderConfigError::InvalidLimits => "model limits must be > 0".to_owned(),
            ProviderConfigError::TextRequired => "text capability is required".to_owned(),
        }
    }
}

/// The name of a profile.
#[derive(Debug, PartialEq, Eq, PartialOrd, Ord, Hash)]
pub struct ModelProfileId {
    value: String,
}

impl View for ModelProfileId {
    type V = Seq<char>;

    closed spec fn view(&self) -> Seq<char> {
        self.value@
    }
}

impl Clone for ModelProfileId {
    fn clone(&self) -> (r: ModelProfileId)
        ensures
            r@ == self@,
    {
        ModelProfileId { value: self.value.clone() }
    }
}

impl ModelProfileId {
    /// Checks and takes the text.
    pub fn parse(value: String) -> (r: Result<ModelProfileId, ProviderConfigError>)
        ensures
            match r {
                Ok(v) => mixed_name(value@, 128) && v@ == value@,
                Err(e) => !(mixed_name(value@, 128)) && e == ProviderConfigError::InvalidProfileId,
            },
    {
        if !is_mixed_name(value.as_str(), 128) {
            return Err(ProviderConfigError::InvalidProfileId);
        }
        Ok(ModelProfileId { value })
    }

    /// The text.
    pub fn as_str(&self) -> (r: &str)
        ensures
            r@ == self@,
    {
        self.value.as_str()
    }
}

/// An endpoint after normalization.
#[derive(Debug, PartialEq, Eq)]
struct Endpoint {
    text: String,
    https: bool,
    loopback: bool,
}

/// The model of an endpoint.
pub struct EndpointView {
    /// The normalized URL.
    pub text: Seq<char>,
    pub https: bool,
    pub loopback: bool,
}

impl View for Endpoint {
    type V = EndpointView;

    closed spec fn view(&self) -> EndpointView {
        EndpointView { text: self.text@, https: self.https, loopback: self.loopback }
    }
}

/// An address of this machine: 127.0.0.0/8, or ::1.
pub open spec fn loopback_address(a: IpAddress) -> bool {
    match a {
        IpAddress::V4(b) => b / 0x100_0000 == 127,
        IpAddress::V6(b) => b == 1,
    }
}

/// A host that is this machine: a loopback address, or the name `localhost`.
pub open spec fn loopback_host(h: UrlHostView) -> bool {
    match h {
        UrlHostView::Ip(a) => loopback_address(a),
        UrlHostView::Domain(d) => ascii_alike(d, "localhost"@) || (ip_of_text(d) matches Some(a)
            && loopback_address(a)),
    }
}

/// The parts of a URL that can be an endpoint.
pub open spec fn endpoint_ok(u: UrlView) -> bool {
    &&& u.scheme == "http"@ || u.scheme == "https"@
    &&& u.username.len() == 0
    &&& !u.has_password
    &&& !u.has_query
    &&& !u.has_fragment
    &&& u.host is Some
}

/// The URL `s` with parts `u`, whose path is made to end in a slash, unless 32
/// bits cannot count the bytes of the longer text.
pub open spec fn slashed(s: Seq<char>, u: UrlView) -> Option<Seq<char>> {
    if u.path.len() > 0 && u.path.last() == '/' {
        Some(u.text)
    } else if byte_len(u.text) >= u32::MAX {
        None
    } else {
        url_with_path(s, u.path.push('/'))
    }
}

/// The endpoint that a text names, or why it names none.
pub open spec fn endpoint_of(s: Seq<char>) -> Result<EndpointView, ConfigErrorView> {
    match url_of_text(s) {
        Err(m) => Err(ConfigErrorView::InvalidUrl(m)),
        Ok(u) => if !endpoint_ok(u) {
            Err(ConfigErrorView::InvalidEndpoint)
        } else {
            match slashed(s, u) {
                None => Err(ConfigErrorView::InvalidEndpoint),
                Some(text) => Ok(
                    EndpointView {
                        text,
                        https: u.scheme == "https"@,
                        loopback: loopback_host(u.host->0),
                    },
                ),
            }
        },
    }
}

/// Whether a URL with these parts can be an endpoint.
pub fn can_be_endpoint(u: &UrlParts) -> (r: bool)
    ensures
        r == endpoint_ok(u@),
{
    let clear = u.username.as_str().is_empty() && !u.has_password && !u.has_query
        && !u.has_fragment;
    (str_eq(u.scheme.as_str(), "http") || str_eq(u.scheme.as_str(), "https")) && clear
        && u.host.is_some()
}

fn is_loopback_address(a: IpAddress) -> (r: bool)
    ensures
        r == loopback_address(a),
{
    match a {
        IpAddress::V4(b) => b / 0x100_0000 == 127,
        IpAddress::V6(b) => b == 1,
    }
}

/// Whether a host is this machine.
pub fn is_loopback(host: &UrlHost) -> (r: bool)
    ensures
        r == loopback_host(host@),
{
    match host {
        UrlHost::Ip(a) => is_loopback_address(*a),
        UrlHost::Domain(d) => if eq_ignore_ascii_case(d.as_str(), "localhost") {
            true
        } else {
            match parse_ip(d.as_str()) {
                Some(a) => is_loopback_address(a),
                None => false,
            }
        },
    }
}

fn normalize_endpoint(value: &str) -> (r: Result<Endpoint, ProviderConfigError>)
    ensures
        match r {
            Ok(e) => endpoint_of(value@) == Ok::<EndpointView, ConfigErrorView>(e@),
            Err(e) => endpoint_of(value@) == Err::<EndpointView, ConfigErrorView>(e@),
        },
{
    let u = match parse_url(value) {
        Ok(u) => u,
        Err(m) => {
            return Err(ProviderConfigError::InvalidUrl(m));
        },
    };
    if !can_be_endpoint(&u) {
        return Err(ProviderConfigError::InvalidEndpoint);
    }
    let https = str_eq(u.scheme.as_str(), "https");
    let loopback = match &u.host {
        Some(h) => is_loopback(h),
        None => false,
    };
    let c = to_chars(u.path.as_str());
    if c.len() > 0 && c[c.len() - 1] == '/' {
        return Ok(Endpoint { text: u.text, https, loopback });
    }
    let mut path = u.path.clone();
    path.push('/');
    if str_byte_len(u.text.as_str()) >= 0xffff_ffff {
        return Err(ProviderConfigError::InvalidEndpoint);
    }
    match set_url_path(value, path.as_str()) {
        Some(text) => Ok(Endpoint { text, https, loopback }),
        None => Err(ProviderConfigError::InvalidEndpoint),
    }
}

/// The configuration of a provider.
#[derive(Clone, Debug, PartialEq, Eq)]
pub struct ProviderConfig {
    id: ProviderId,
    revision: u64,
    kind: ProviderKind,
    endpoint_class: EndpointClass,
    endpoint: String,
    enabled: bool,
    local_runtime: Option<LocalRuntimeKind>,
    credential_secret_ref: Option<SecretRefId>,
}

/// The model of a `ProviderConfig`.
pub struct ProviderView {
    pub id: Seq<char>,
    pub revision: u64,
    pub kind: ProviderKind,
    pub endpoint_class: EndpointClass,
    pub endpoint: Seq<char>,
    pub enabled: bool,
    pub local_runtime: Option<LocalRuntimeKind>,
    pub credential_secret_ref: Option<SecretRefId>,
}

impl View for ProviderConfig {
    type V = ProviderView;

    closed spec fn view(&self) -> ProviderView {
        ProviderView {
            id: self.id@,
            revision: self.revision,
            kind: self.kind,
            endpoint_class: self.endpoint_class,
            endpoint: self.endpoint@,
            enabled: self.enabled,
            local_runtime: self.local_runtime,
            credential_secret_ref: self.credential_secret_ref,
        }
    }
}

/// The model of a configuration, or why there is none.
pub open spec fn config_view(r: Result<ProviderConfig, ProviderConfigError>) -> Result<
    ProviderView,
    ConfigErrorView,
> {
    match r {
        Ok(c) => Ok(c@),
        Err(e) => Err(e@),
    }
}

/// A remote provider: OpenAI or Anthropic, over HTTPS, not on this machine.
pub open spec fn remote_config(
    id: Seq<char>,
    revision: u64,
    kind: ProviderKind,
    endpoint: Seq<char>,
    enabled: bool,
    secret: SecretRefId,
) -> Result<ProviderView, ConfigErrorView> {
    if revision == 0 || kind == ProviderKind::OpenAiCompatible {
        Err(ConfigErrorView::InvalidShape)
    } else {
        match endpoint_of(endpoint) {
            Err(e) => Err(e),
            Ok(e) => if !e.https || e.loopback {
                Err(ConfigErrorView::RemoteMustUseHttps)
            } else {
                Ok(
                    ProviderView {
                        id,
                        revision,
                        kind,
                        endpoint_class: EndpointClass::Remote,
                        endpoint: e.text,
                        enabled,
                        local_runtime: None,
                        credential_secret_ref: Some(secret),
                    },
                )
            },
        }
    }
}

/// A local provider: one on this machine that speaks OpenAI's protocol.
pub open spec fn local_config(
    id: Seq<char>,
    revision: u64,
    endpoint: Seq<char>,
    runtime: LocalRuntimeKind,
    enabled: bool,
    secret: Option<SecretRefId>,
) -> Result<ProviderView, ConfigErrorView> {
    if revision == 0 {
        Err(ConfigErrorView::InvalidRevision)
    } else {
        match endpoint_of(endpoint) {
            Err(e) => Err(e),
            Ok(e) => if !e.loopback {
                Err(ConfigErrorView::LocalMustBeLoopback)
            } else {
                Ok(
                    ProviderView {
                        id,
                        revision,
                        kind: ProviderKind::OpenAiCompatible,
                        endpoint_class: EndpointClass::Local,
                        endpoint: e.text,
                        enabled,
                        local_runtime: Some(runtime),
                        credential_secret_ref: secret,
                    },
                )
            },
        }
    }
}

/// The provider with the given parts, as they were stored.
pub open spec fn stored_config(
    id: Seq<char>,
    revision: u64,
    kind: ProviderKind,
    class: EndpointClass,
    endpoint: Seq<char>,
    enabled: bool,
    runtime: Option<LocalRuntimeKind>,
    secret: Option<SecretRefId>,
) -> Result<ProviderView, ConfigErrorView> {
    if kind != ProviderKind::OpenAiCompatible && class == EndpointClass::Remote && runtime is None
        && secret is Some {
        remote_config(id, revision, kind, endpoint, enabled, secret->0)
    } else if kind == ProviderKind::OpenAiCompatible && class == EndpointClass::Local
        && runtime is Some {
        local_config(id, revision, endpoint, runtime->0, enabled, secret)
    } else {
        Err(ConfigErrorView::InvalidShape)
    }
}

impl ProviderConfig {
    /// A remote provider.
    pub fn remote(
        id: ProviderId,
        revision: u64,
        kind: ProviderKind,
        endpoint: &str,
        enabled: bool,
        secret: SecretRefId,
    ) -> (r: Result<ProviderConfig, ProviderConfigError>)
        ensures
            config_view(r) == remote_config(id@, revision, kind, endpoint@, enabled, secret),
    {
        if revision == 0 || kind == ProviderKind::OpenAiCompatible {
            return Err(ProviderConfigError::InvalidShape);
        }
        let e = match normalize_endpoint(endpoint) {
            Ok(e) => e,
            Err(e) => {
                return Err(e);
            },
        };
        if !e.https || e.loopback {
            return Err(ProviderConfigError::RemoteMustUseHttps);
        }
        Ok(
            ProviderConfig {
                id,
                revision,
                kind,
                endpoint_class: EndpointClass::Remote,
                endpoint: e.text,
                enabled,
                local_runtime: None,
                credential_secret_ref: Some(secret),
            },
        )
    }

    /// A local provider.
    pub fn local_openai_compatible(
        id: ProviderId,
        revision: u64,
        endpoint: &str,
        runtime: LocalRuntimeKind,
        enabled: bool,
        secret: Option<SecretRefId>,
    ) -> (r: Result<ProviderConfig, ProviderConfigError>)
        ensures
            config_view(r) == local_config(id@, revision, endpoint@, runtime, enabled, secret),
    {
        if revision == 0 {
            return Err(ProviderConfigError::InvalidRevision);
        }
        let e = match normalize_endpoint(endpoint) {
            Ok(e) => e,
            Err(e) => {
                return Err(e);
            },
        };
        if !e.loopback {
            return Err(ProviderConfigError::LocalMustBeLoopback);
        }
        Ok(
            ProviderConfig {
                id,
                revision,
                kind: ProviderKind::OpenAiCompatible,
                endpoint_class: EndpointClass::Local,
                endpoint: e.text,
                enabled,
                local_runtime: Some(runtime),
                credential_secret_ref: secret,
            },
        )
    }

    /// The provider with the given parts, as they were stored.
    pub fn from_stored_parts(
        id: ProviderId,
        revision: u64,
        kind: ProviderKind,
        class: EndpointClass,
        endpoint: &str,
        enabled: bool,
        runtime: Option<LocalRuntimeKind>,
        secret: Option<SecretRefId>,
    ) -> (r: Result<ProviderConfig, ProviderConfigError>)
        ensures
            config_view(r) == stored_config(
                id@,
                revision,
                kind,
                class,
                endpoint@,
                enabled,
                runtime,
                secret,
            ),
    {
        match (kind, class, runtime, secret) {
            (
                ProviderKind::OpenAi | ProviderKind::Anthropic,
                EndpointClass::Remote,
                None,
                Some(secret),
            ) => ProviderConfig::remote(id, revision, kind, endpoint, enabled, secret),
            (
                ProviderKind::OpenAiCompatible,
                EndpointClass::Local,
                Some(runtime),
                secret,
            ) => ProviderConfig::local_openai_compatible(
                id,
                revision,
                endpoint,
                runtime,
                enabled,
                secret,
            ),
            _ => Err(ProviderConfigError::InvalidShape),
        }
    }

    /// The provider.
    pub fn id(&self) -> (r: &ProviderId)
        ensures
            r@ == self@.id,
    {
        &self.id
    }

    /// The revision of the configuration.
    pub fn revision(&self) -> (r: u64)
        ensures
            r == self@.revision,
    {
        self.revision
    }

    /// The protocol.
    pub fn kind(&self) -> (r: ProviderKind)
        ensures
            r == self@.kind,
    {
        self.kind
    }

    /// The kind of endpoint.
    pub fn endpoint_class(&self) -> (r: EndpointClass)
        ensures
            r == self@.endpoint_class,
    {
        self.endpoint_class
    }

    /// The normalized URL of the endpoint.
    pub fn endpoint(&self) -> (r: &str)
        ensures
            r@ == self@.endpoint,
    {
        self.endpoint.as_str()
    }

    /// Whether the provider is in use.
    pub fn enabled(&self) -> (r: bool)
        ensures
            r == self@.enabled,
    {
        self.enabled
    }

    /// What serves a local model.
    pub fn local_runtime(&self) -> (r: Option<LocalRuntimeKind>)
        ensures
            r == self@.local_runtime,
    {
        self.local_runtime
    }

    /// The secret that authenticates requests.
    pub fn credential_secret_ref(&self) -> (r: Option<SecretRefId>)
        ensures
            r == self@.credential_secret_ref,
    {
        self.credential_secret_ref
    }
}

/// A stored provider is either remote, over HTTPS, off this machine and with
/// a credential, or local, on this machine and with a runtime.
pub proof fn stored_providers_have_one_of_two_shapes(
    id: Seq<char>,
    revision: u64,
    kind: ProviderKind,
    class: EndpointClass,
    endpoint: Seq<char>,
    enabled: bool,
    runtime: Option<LocalRuntimeKind>,
    secret: Option<SecretRefId>,
)
    ensures
        stored_config(id, revision, kind, class, endpoint, enabled, runtime, secret) matches Ok(p)
            ==> {
            &&& p.revision > 0
            &&& p.endpoint_class == EndpointClass::Remote ==> p.kind
                != ProviderKind::OpenAiCompatible && p.credential_secret_ref is Some && (
            endpoint_of(endpoint) matches Ok(e) && e.https && !e.loopback && p.endpoint == e.text)
            &&& p.endpoint_class == EndpointClass::Local ==> p.kind
                == ProviderKind::OpenAiCompatible && p.local_runtime is Some && (endpoint_of(
                endpoint,
            ) matches Ok(e) && e.loopback && p.endpoint == e.text)
        },
{
}

/// A model of a provider.
#[derive(Clone, Debug, PartialEq, Eq)]
pub struct ModelProfile {
    id: ModelProfileId,
    revision: u64,
    provider_id: ProviderId,
    provider_revision: u64,
    model_name: String,
    enabled: bool,
    capabilities: ModelCapabilities,
    context_window_tokens: u32,
    trust_zone: ModelTrustZone,
    concurrency_limit: u32,
    priority: i32,
}

/// The model of a `ModelProfile`.
pub struct ProfileView {
    pub id: Seq<char>,
    pub revision: u64,
    pub provider_id: Seq<char>,
    pub provider_revision: u64,
    pub model_name: Seq<char>,
    pub enabled: bool,
    pub capabilities: Set<ModelCapability>,
    pub context_window_tokens: u32,
    pub trust_zone: ModelTrustZone,
    pub concurrency_limit: u32,
    pub priority: i32,
}

impl View for ModelProfile {
    type V = ProfileView;

    closed spec fn view(&self) -> ProfileView {
        ProfileView {
            id: self.id@,
            revision: self.revision,
            provider_id: self.provider_id@,
            provider_revision: self.provider_revision,
            model_name: self.model_name@,
            enabled: self.enabled,
            capabilities: self.capabilities@,
            context_window_tokens: self.context_window_tokens,
            trust_zone: self.trust_zone,
            concurrency_limit: self.concurrency_limit,
            priority: self.priority,
        }
    }
}

impl ProfileView {
    /// What is wrong with the profile.
    pub open spec fn flaw(self) -> Option<ConfigErrorView> {
        if self.revision == 0 || self.provider_revision == 0 {
            Some(ConfigErrorView::InvalidRevision)
        } else if !plain_text(self.model_name, 256) {
            Some(ConfigErrorView::InvalidModelName)
        } else if self.context_window_tokens == 0 || self.concurrency_limit == 0 {
            Some(ConfigErrorView::InvalidLimits)
        } else if !self.capabilities.contains(ModelCapability::Text) {
            Some(ConfigErrorView::TextRequired)
        } else {
            None
        }
    }
}

impl ModelProfile {
    /// Checks and takes the parts.
    pub fn new(
        id: ModelProfileId,
        revision: u64,
        provider_id: ProviderId,
        provider_revision: u64,
        model_name: String,
        enabled: bool,
        capabilities: ModelCapabilities,
        context_window_tokens: u32,
        trust_zone: ModelTrustZone,
        concurrency_limit: u32,
        priority: i32,
    ) -> (r: Result<ModelProfile, ProviderConfigError>)
        ensures
            ({
                let v = ProfileView {
                    id: id@,
                    revision,
                    provider_id: provider_id@,
                    provider_revision,
                    model_name: model_name@,
                    enabled,
                    capabilities: capabilities@,
                    context_window_tokens,
                    trust_zone,
                    concurrency_limit,
                    priority,
                };
                match r {
                    Ok(p) => v.flaw() is None && p@ == v,
                    Err(e) => v.flaw() == Some(e@),
                }
            }),
    {
        if revision == 0 || provider_revision == 0 {
            return Err(ProviderConfigError::InvalidRevision);
        }
        if !is_plain_text(model_name.as_str(), 256) {
            return Err(ProviderConfigError::InvalidModelName);
        }
        if context_window_tokens == 0 || concurrency_limit == 0 {
            return Err(ProviderConfigError::InvalidLimits);
        }
        if !capabilities.contains(ModelCapability::Text) {
            return Err(ProviderConfigError::TextRequired);
        }
        Ok(
            ModelProfile {
                id,
                revision,
                provider_id,
                provider_revision,
                model_name,
                enabled,
                capabilities,
                context_window_tokens,
                trust_zone,
                concurrency_limit,
                priority,
            },
        )
    }

    /// The name of the profile.
    pub fn id(&self) -> (r: &ModelProfileId)
        ensures
            r@ == self@.id,
    {
        &self.id
    }

    /// The revision of the profile.
    pub fn revision(&self) -> (r: u64)
        ensures
            r == self@.revision,
    {
        self.revision
    }

    /// The provider.
    pub fn provider_id(&self) -> (r: &ProviderId)
        ensures
            r@ == self@.provider_id,
    {
        &self.provider_id
    }

    /// The revision of the provider that the profile is for.
    pub fn provider_revision(&self) -> (r: u64)
        ensures
            r == self@.provider_revision,
    {
        self.provider_revision
    }

    /// The name of the model.
    pub fn model_name(&self) -> (r: &str)
        ensures
            r@ == self@.model_name,
    {
        self.model_name.as_str()
    }

    /// Whether the profile is in use.
    pub fn enabled(&self) -> (r: bool)
        ensures
            r == self@.enabled,
    {
        self.enabled
    }

    /// What the model can do.
    pub fn capabilities(&self) -> (r: &ModelCapabilities)
        ensures
            r@ == self@.capabilities,
    {
        &self.capabilities
    }

    /// The size of its context window.
    pub fn context_window_tokens(&self) -> (r: u32)
        ensures
            r == self@.context_window_tokens,
    {
        self.context_window_tokens
    }

    /// How far it is trusted.
    pub fn trust_zone(&self) -> (r: ModelTrustZone)
        ensures
            r == self@.trust_zone,
    {
        self.trust_zone
    }

    /// How many requests may run at once.
    pub fn concurrency_limit(&self) -> (r: u32)
        ensures
            r == self@.concurrency_limit,
    {
        self.concurrency_limit
    }

    /// Its priority.
    pub fn priority(&self) -> (r: i32)
        ensures
            r == self@.priority,
    {
        self.priority
    }
}

/// What a request used.
#[derive(Clone, Copy, Debug, PartialEq, Eq, Structural)]
pub struct ProviderUsage {
    pub input_tokens: Option<u64>,
    pub output_tokens: Option<u64>,
}

impl Default for ProviderUsage {
    fn default() -> (r: ProviderUsage)
        ensures
            r == (ProviderUsage { input_tokens: None, output_tokens: None }),
    {
        ProviderUsage { input_tokens: None, output_tokens: None }
    }
}

/// The kind of a failure.
#[derive(Clone, Copy, Debug, PartialEq, Eq, Structural)]
pub enum ProviderErrorKind {
    Cancelled,
    Transport,
    Http,
    Protocol,
    Configuration,
}

impl ProviderErrorKind {
    /// The name in messages.
    pub open spec fn name(self) -> Seq<char> {
        match self {
            ProviderErrorKind::Cancelled => "Cancelled"@,
            ProviderErrorKind::Transport => "Transport"@,
            ProviderErrorKind::Http => "Http"@,
            ProviderErrorKind::Protocol => "Protocol"@,
            ProviderErrorKind::Configuration => "Configuration"@,
        }
    }

    /// The name in messages.
    pub fn as_str(self) -> (r: &'static str)
        ensures
            r@ == self.name(),
    {
        match self {
            ProviderErrorKind::Cancelled => "Cancelled",
            ProviderErrorKind::Transport => "Transport",
            ProviderErrorKind::Http => "Http",
            ProviderErrorKind::Protocol => "Protocol",
            ProviderErrorKind::Configuration => "Configuration",
        }
    }
}

/// The failure of a provider.
#[derive(Clone, Debug, PartialEq, Eq)]
pub struct ProviderError {
    pub kind: ProviderErrorKind,
    pub message: String,
}

/// The model of a `ProviderError`.
pub struct ProviderErrorView {
    pub kind: ProviderErrorKind,
    pub message: Seq<char>,
}

impl View for ProviderError {
    type V = ProviderErrorView;

    open spec fn view(&self) -> ProviderErrorView {
        ProviderErrorView { kind: self.kind, message: self.message@ }
    }
}

impl ProviderErrorView {
    /// The whole message.
    pub open spec fn text(self) -> Seq<char> {
        "provider "@ + self.kind.name() + " error: "@ + self.message
    }
}

impl ProviderError {
    /// A failure.
    pub fn new(kind: ProviderErrorKind, message: String) -> (r: ProviderError)
        ensures
            r@ == (ProviderErrorView { kind, message: message@ }),
    {
        ProviderError { kind, message }
    }

    /// A request that was cancelled.
    pub fn cancelled() -> (r: ProviderError)
        ensures
            r@ == (ProviderErrorView {
                kind: ProviderErrorKind::Cancelled,
                message: "request cancelled"@,
            }),
    {
        ProviderError::new(ProviderErrorKind::Cancelled, "request cancelled".to_owned())
    }

    /// The connection failed.
    pub fn transport(message: String) -> (r: ProviderError)
        ensures
            r@ == (ProviderErrorView { kind: ProviderErrorKind::Transport, message: message@ }),
    {
        ProviderError::new(ProviderErrorKind::Transport, message)
    }

    /// The response was an HTTP error.
    pub fn http(message: String) -> (r: ProviderError)
        ensures
            r@ == (ProviderErrorView { kind: ProviderErrorKind::Http, message: message@ }),
    {
        ProviderError::new(ProviderErrorKind::Http, message)
    }

    /// The response broke the protocol.
    pub fn protocol(message: String) -> (r: ProviderError)
        ensures
            r@ == (ProviderErrorView { kind: ProviderErrorKind::Protocol, message: message@ }),
    {
        ProviderError::new(ProviderErrorKind::Protocol, message)
    }

    /// The configuration does not allow the request.
    pub fn configuration(message: String) -> (r: ProviderError)
        ensures
            r@ == (ProviderErrorView { kind: ProviderErrorKind::Configuration, message: message@ }),
    {
        ProviderError::new(ProviderErrorKind::Configuration, message)
    }

    /// The whole message.
    pub fn to_text(&self) -> (r: String)
        ensures
            r@ == self@.text(),
    {
        let mut out = "provider ".to_owned();
        out.append(self.kind.as_str());
        out.append(" error: ");
        out.append(self.message.as_str());
        out
    }
}

/// The response of a provider.
#[derive(Clone, Debug, PartialEq, Eq)]
pub struct ProviderResponse {
    pub resolved_model: String,
    pub output: ModelOutput,
    pub usage: ProviderUsage,
}

/// The model of a `ProviderResponse`.
pub struct ResponseView {
    pub resolved_model: Seq<char>,
    pub output: OutputView,
    pub usage: ProviderUsage,
}

impl View for ProviderResponse {
    type V = ResponseView;

    open spec fn view(&self) -> ResponseView {
        ResponseView {
            resolved_model: self.resolved_model@,
            output: self.output@,
            usage: self.usage,
        }
    }
}

impl ProviderResponse {
    /// Checks and takes the parts.
    pub fn new(model: String, output: ModelOutput, usage: ProviderUsage) -> (r: Result<
        ProviderResponse,
        ProviderError,
    >)
        ensures
            match r {
                Ok(p) => model@.len() > 0 && no_control(model@) && p@ == (ResponseView {
                    resolved_model: model@,
                    output: output@,
                    usage,
                }),
                Err(e) => !(model@.len() > 0 && no_control(model@)) && e@ == (ProviderErrorView {
                    kind: ProviderErrorKind::Protocol,
                    message: "invalid resolved model"@,
                }),
            },
    {
        if model.as_str().is_empty() || !lacks_control(model.as_str()) {
            return Err(ProviderError::protocol("invalid resolved model".to_owned()));
        }
        Ok(ProviderResponse { resolved_model: model, output, usage })
    }
}

/// Why a profile is not bound to a provider.
pub open spec fn binding_flaw(provider: ProviderView, profile: ProfileView) -> Option<Seq<char>> {
    if !provider.enabled {
        Some("provider disabled"@)
    } else if !profile.enabled {
        Some("model profile disabled"@)
    } else if profile.provider_id != provider.id || profile.provider_revision
        != provider.revision {
        Some("profile/provider revision mismatch"@)
    } else {
        None
    }
}

/// Checks that a profile is for this revision of the provider, and that both
/// are in use.
pub fn validate_binding(provider: &ProviderConfig, profile: &ModelProfile) -> (r: Result<
    (),
    ProviderError,
>)
    ensures
        match r {
            Ok(()) => binding_flaw(provider@, profile@) is None,
            Err(e) => e@.kind == ProviderErrorKind::Configuration && binding_flaw(
                provider@,
                profile@,
            ) == Some(e@.message),
        },
{
    if !provider.enabled {
        return Err(ProviderError::configuration("provider disabled".to_owned()));
    }
    if !profile.enabled {
        return Err(ProviderError::configuration("model profile disabled".to_owned()));
    }
    if !profile.provider_id.same(&provider.id) || profile.provider_revision != provider.revision {
        return Err(
            ProviderError::configuration("profile/provider revision mismatch".to_owned()),
        );
    }
    Ok(())
}

/// An endpoint is an address over HTTP or HTTPS with a host and without user,
/// password, query or fragment. It says whether it is over HTTPS, and whether
/// its host is this machine: an address that starts with 127, the address ::1,
/// or the name localhost.
pub proof fn endpoints_are_plain_addresses(s: Seq<char>)
    ensures
        endpoint_of(s) matches Ok(e) ==> (url_of_text(s) matches Ok(u) && {
            &&& u.scheme == "http"@ || u.scheme == "https"@
            &&& u.host is Some
            &&& u.username.len() == 0 && !u.has_password && !u.has_query && !u.has_fragment
            &&& e.https == (u.scheme == "https"@)
            &&& u.host == Some(UrlHostView::Ip(IpAddress::V6(1u128))) ==> e.loopback
            &&& u.host matches Some(UrlHostView::Ip(IpAddress::V4(b))) ==> (e.loopback
                <==> 0x7F00_0000 <= b <= 0x7FFF_FFFF)
            &&& u.host matches Some(UrlHostView::Ip(IpAddress::V6(b))) ==> (e.loopback <==> b == 1)
            &&& u.host matches Some(UrlHostView::Domain(d)) ==> (ip_of_text(d) is None ==> (
            e.loopback <==> ascii_alike(d, "localhost"@)))
        }),
{
}

/// A remote provider is taken exactly if its revision is not zero, it is one of
/// the two known kinds, and its endpoint is over HTTPS and not this machine. A
/// local one is taken exactly if its revision is not zero and its endpoint is
/// this machine. Each holds what was given.
pub proof fn providers_are_where_they_should_be(
    id: Seq<char>,
    revision: u64,
    kind: ProviderKind,
    endpoint: Seq<char>,
    enabled: bool,
    secret: SecretRefId,
    runtime: LocalRuntimeKind,
    local_secret: Option<SecretRefId>,
)
    ensures
        ({
            let at = endpoint_of(endpoint);
            let remote = remote_config(id, revision, kind, endpoint, enabled, secret);
            let local = local_config(id, revision, endpoint, runtime, enabled, local_secret);
            &&& remote is Ok <==> revision > 0 && kind != ProviderKind::OpenAiCompatible && at is Ok
                && at->Ok_0.https && !at->Ok_0.loopback
            &&& local is Ok <==> revision > 0 && at is Ok && at->Ok_0.loopback
            &&& remote matches Ok(p) ==> {
                &&& p.id == id && p.revision == revision && p.kind == kind && p.enabled == enabled
                &&& p.endpoint == at->Ok_0.text && p.endpoint_class == EndpointClass::Remote
                &&& p.local_runtime is None && p.credential_secret_ref == Some(secret)
            }
            &&& local matches Ok(p) ==> {
                &&& p.id == id && p.revision == revision && p.enabled == enabled
                &&& p.kind == ProviderKind::OpenAiCompatible
                &&& p.endpoint == at->Ok_0.text && p.endpoint_class == EndpointClass::Local
                &&& p.local_runtime == Some(runtime) && p.credential_secret_ref == local_secret
            }
        }),
{
}

/// A profile is bound to a provider exactly if both are in use and the profile
/// names this very revision of the provider.
pub proof fn bindings_are_to_this_revision(provider: ProviderView, profile: ProfileView)
    ensures
        binding_flaw(provider, profile) is None <==> {
            &&& provider.enabled
            &&& profile.enabled
            &&& profile.provider_id == provider.id
            &&& profile.provider_revision == provider.revision
        },
{
}

/// A profile is in order exactly if its revisions are not zero, its model has a
/// plain name of at most 256 bytes, its window and its concurrency are not
/// zero, and it can write text.
pub proof fn profiles_in_order_can_write_text(p: ProfileView)
    ensures
        p.flaw() is None <==> {
            &&& p.revision > 0 && p.provider_revision > 0
            &&& plain_text(p.model_name, 256)
            &&& p.context_window_tokens > 0 && p.concurrency_limit > 0
            &&& p.capabilities.contains(ModelCapability::Text)
        },
{
}

/// No two values share a name.
pub proof fn model_capability_names_differ(a: ModelCapability, b: ModelCapability)
    requires
        a.name() == b.name(),
    ensures
        a == b,
{
    reveal_strlit("text");
    reveal_strlit("structured_output");
    reveal_strlit("tool_calling");
    reveal_strlit("code_generation");
    reveal_strlit("long_context");
    reveal_strlit("reasoning");
    reveal_strlit("streaming");
    reveal_strlit("vision");
    assert("text"@.len() == 4);
    assert("structured_output"@.len() == 17);
    assert("tool_calling"@.len() == 12);
    assert("code_generation"@.len() == 15);
    assert("long_context"@.len() == 12);
    assert("reasoning"@.len() == 9);
    assert("streaming"@.len() == 9);
    assert("vision"@.len() == 6);
    assert("tool_calling"@[0] != "long_context"@[0]);
    assert("reasoning"@[0] != "streaming"@[0]);
}

/// A host is this machine exactly if it is a loopback address, written as such
/// or as a name, or the name of the local host in whatever case. For the 32-bit
/// addresses that is the class of loopback addresses.
pub proof fn loopback_hosts_are_this_machine(b: u32, wide: u128, d: Seq<char>)
    ensures
        loopback_host(UrlHostView::Ip(IpAddress::V4(b))) <==> 0x7f00_0000 <= b <= 0x7fff_ffff,
        loopback_host(UrlHostView::Ip(IpAddress::V4(b))) <==> ip_class(IpAddress::V4(b))
            == NetworkClass::Loopback,
        loopback_host(UrlHostView::Ip(IpAddress::V6(wide))) <==> wide == 1,
        loopback_host(UrlHostView::Domain(d)) <==> ascii_alike(d, "localhost"@) || (ip_of_text(
            d,
        ) matches Some(a) && loopback_host(UrlHostView::Ip(a))),
{
    v4_classes_go_by_place(b);
}

/// An endpoint's path ends in a slash: one that does is kept, and one that does
/// not gets one, unless the text is too long for it.
pub proof fn endpoints_end_in_a_slash(s: Seq<char>, u: UrlView)
    ensures
        u.path.len() > 0 && u.path[u.path.len() - 1] == '/' ==> slashed(s, u) == Some(u.text),
        !(u.path.len() > 0 && u.path[u.path.len() - 1] == '/') && byte_len(u.text) < u32::MAX
            ==> slashed(s, u) == url_with_path(s, u.path + seq!['/']),
{
    assert(u.path.push('/') =~= u.path + seq!['/']);
}

} // verus!
