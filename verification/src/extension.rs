//! Plugins: their names, their manifests, and what they may be asked.

use crate::action::{capabilities_json, ActionId, ActionKind, CanonicalValue};
use crate::automation::canonical_version;
use crate::capability::{
    ascending, ascending_lists_are_unique, capabilities_are_told_apart, has_plain_segments,
    ordered_capabilities, segments_ok, Capability, CapabilityName, CapabilityView,
};
use crate::digest::{sha256_hex_str, text_digest};
use crate::json::{array, item_models, plain, Json, JsonView};
use crate::lists::{opt_model, views};
use crate::text::{
    all_in_class, byte_len, chars_in_class, chars_lack, digest_shaped, is_digest, is_lower_name,
    is_plain_text, lacks, lacks_control, lower_name, no_control, plain_text, split, split_chars,
    str_byte_len, str_eq, texts, to_chars,
};
use crate::version::Version;
use vstd::prelude::*;

verus! {

/// Why a name is refused.
#[derive(Clone, Copy, Debug, PartialEq, Eq, Structural)]
pub enum ExtensionIdentityError {
    InvalidPluginId,
    InvalidComponentId,
    InvalidVersion,
    InvalidDigest,
    InvalidProtocolVersion,
}

impl ExtensionIdentityError {
    /// The message of the error.
    pub open spec fn text(self) -> Seq<char> {
        match self {
            ExtensionIdentityError::InvalidPluginId =>
                "plugin ID must contain at least three canonical lowercase DNS-style labels"@,
            ExtensionIdentityError::InvalidComponentId =>
                "plugin component ID must be a bounded canonical lowercase ASCII identifier"@,
            ExtensionIdentityError::InvalidVersion => "plugin version must be a canonical semantic version"@,
            ExtensionIdentityError::InvalidDigest =>
                "SHA-256 digest must be exactly 64 lowercase hexadecimal characters"@,
            ExtensionIdentityError::InvalidProtocolVersion =>
                "extension protocol version must be greater than zero"@,
        }
    }

    /// The message of the error.
    pub fn message(&self) -> (r: &'static str)
        ensures
            r@ == self.text(),
    {
        match self {
            ExtensionIdentityError::InvalidPluginId =>
                "plugin ID must contain at least three canonical lowercase DNS-style labels",
            ExtensionIdentityError::InvalidComponentId =>
                "plugin component ID must be a bounded canonical lowercase ASCII identifier",
            ExtensionIdentityError::InvalidVersion => "plugin version must be a canonical semantic version",
            ExtensionIdentityError::InvalidDigest =>
                "SHA-256 digest must be exactly 64 lowercase hexadecimal characters",
            ExtensionIdentityError::InvalidProtocolVersion =>
                "extension protocol version must be greater than zero",
        }
    }
}

/// Why a manifest is refused.
#[derive(Clone, Copy, Debug, PartialEq, Eq, Structural)]
pub enum ManifestError {
    InvalidPath,
    UnsupportedVersion,
    InvalidText,
    InvalidComponentCount,
    DuplicateComponent,
    InvalidComponent,
}

impl ManifestError {
    /// The message of the error.
    pub open spec fn text(self) -> Seq<char> {
        match self {
            ManifestError::InvalidPath => "manifest path must be a canonical package-relative path"@,
            ManifestError::UnsupportedVersion => "manifest version is unsupported"@,
            ManifestError::InvalidText =>
                "manifest text is empty, unbounded, or contains control characters"@,
            ManifestError::InvalidComponentCount => "manifest must declare between one and 128 components"@,
            ManifestError::DuplicateComponent => "manifest component IDs must be unique"@,
            ManifestError::InvalidComponent => "manifest component metadata exceeds its bounds"@,
        }
    }

    /// The message of the error.
    pub fn message(&self) -> (r: &'static str)
        ensures
            r@ == self.text(),
    {
        match self {
            ManifestError::InvalidPath => "manifest path must be a canonical package-relative path",
            ManifestError::UnsupportedVersion => "manifest version is unsupported",
            ManifestError::InvalidText => "manifest text is empty, unbounded, or contains control characters",
            ManifestError::InvalidComponentCount => "manifest must declare between one and 128 components",
            ManifestError::DuplicateComponent => "manifest component IDs must be unique",
            ManifestError::InvalidComponent => "manifest component metadata exceeds its bounds",
        }
    }
}

/// Why an invocation is refused.
#[derive(Clone, Copy, Debug, PartialEq, Eq, Structural)]
pub enum InvocationContractError {
    InvalidLimits,
    InvalidFailure,
}

impl InvocationContractError {
    /// The message of the error.
    pub open spec fn text(self) -> Seq<char> {
        match self {
            InvocationContractError::InvalidLimits =>
                "extension invocation limits must all be greater than zero"@,
            InvocationContractError::InvalidFailure =>
                "extension failure text must be non-empty, bounded, and free of controls"@,
        }
    }

    /// The message of the error.
    pub fn message(&self) -> (r: &'static str)
        ensures
            r@ == self.text(),
    {
        match self {
            InvocationContractError::InvalidLimits =>
                "extension invocation limits must all be greater than zero",
            InvocationContractError::InvalidFailure =>
                "extension failure text must be non-empty, bounded, and free of controls",
        }
    }
}

/// A label of a plugin's name: lowercase letters, digits and inner hyphens.
pub open spec fn label_ok(s: Seq<char>) -> bool {
    &&& 0 < s.len()
    &&& byte_len(s) <= 63
    &&& all_in_class(s, true, false, true, "-"@)
    &&& s[0] != '-'
    &&& s.last() != '-'
}

fn is_label(s: &str) -> (r: bool)
    ensures
        r == label_ok(s@),
{
    let c = to_chars(s);
    let n: usize = c.len();
    if n == 0 || str_byte_len(s) > 63 {
        return false;
    }
    chars_in_class(&c, true, false, true, "-") && c[0] != '-' && c[n - 1] != '-'
}

/// The name of a plugin: at least three labels with dots between them.
pub open spec fn plugin_id_ok(s: Seq<char>) -> bool {
    &&& byte_len(s) <= 255
    &&& split(s, '.').len() >= 3
    &&& forall|i: int| 0 <= i < split(s, '.').len() ==> label_ok(#[trigger] split(s, '.')[i])
}

fn is_plugin_id(s: &str) -> (r: bool)
    ensures
        r == plugin_id_ok(s@),
{
    if str_byte_len(s) > 255 {
        return false;
    }
    let c = to_chars(s);
    let pieces = split_chars(&c, 0, c.len(), '.');
    let ghost t = split(s@, '.');
    proof {
        assert(c@.subrange(0, c@.len() as int) =~= s@);
        assert(texts(pieces@).len() == pieces@.len());
    }
    if pieces.len() < 3 {
        return false;
    }
    let mut i: usize = 0;
    while i < pieces.len()
        invariant
            i <= pieces@.len(),
            t == split(s@, '.'),
            t == texts(pieces@),
            forall|k: int| 0 <= k < i ==> label_ok(#[trigger] t[k]),
        decreases pieces@.len() - i,
    {
        if !is_label(pieces[i].as_str()) {
            proof {
                assert(!label_ok(t[i as int]));
            }
            return false;
        }
        i += 1;
    }
    true
}

/// The character ends a name: a letter or a digit.
pub open spec fn ends_name(c: char) -> bool {
    c != '.' && c != '_' && c != '-'
}

/// The name of a component: lowercase letters, digits, and inner dots,
/// underscores and hyphens.
pub open spec fn component_id_ok(s: Seq<char>) -> bool {
    lower_name(s, 128) && ends_name(s[0]) && ends_name(s.last())
}

fn is_component_id(s: &str) -> (r: bool)
    ensures
        r == component_id_ok(s@),
{
    if !is_lower_name(s, 128) {
        return false;
    }
    let c = to_chars(s);
    let n: usize = c.len();
    if n == 0 {
        return false;
    }
    let (a, b) = (c[0], c[n - 1]);
    a != '.' && a != '_' && a != '-' && b != '.' && b != '_' && b != '-'
}

fn is_canonical_version(s: &str) -> (r: bool)
    ensures
        r == canonical_version(s@),
{
    match Version::parse(s) {
        Some(v) => str_eq(s, v.as_str()),
        None => false,
    }
}

/// A path in a package: plain segments with single slashes between them.
pub open spec fn manifest_path_ok(s: Seq<char>) -> bool {
    byte_len(s) <= 4096 && lacks(s, '\\') && segments_ok(s)
}

fn is_manifest_path(s: &str) -> (r: bool)
    ensures
        r == manifest_path_ok(s@),
{
    let c = to_chars(s);
    str_byte_len(s) <= 4096 && chars_lack(&c, '\\') && has_plain_segments(s)
}

/// The name of a plugin.
#[derive(Debug, PartialEq, Eq, PartialOrd, Ord, Hash)]
pub struct PluginId {
    value: String,
}

impl View for PluginId {
    type V = Seq<char>;

    closed spec fn view(&self) -> Seq<char> {
        self.value@
    }
}

impl Clone for PluginId {
    fn clone(&self) -> (r: PluginId)
        ensures
            r@ == self@,
    {
        PluginId { value: self.value.clone() }
    }
}

impl PluginId {
    /// Checks and takes the text.
    pub fn parse(value: String) -> (r: Result<PluginId, ExtensionIdentityError>)
        ensures
            match r {
                Ok(v) => plugin_id_ok(value@) && v@ == value@,
                Err(e) => !(plugin_id_ok(value@)) && e == ExtensionIdentityError::InvalidPluginId,
            },
    {
        if !is_plugin_id(value.as_str()) {
            return Err(ExtensionIdentityError::InvalidPluginId);
        }
        Ok(PluginId { value })
    }

    /// The text.
    pub fn as_str(&self) -> (r: &str)
        ensures
            r@ == self@,
    {
        self.value.as_str()
    }
}

/// The name of a component of a plugin.
#[derive(Debug, PartialEq, Eq, PartialOrd, Ord, Hash)]
pub struct PluginComponentId {
    value: String,
}

impl View for PluginComponentId {
    type V = Seq<char>;

    closed spec fn view(&self) -> Seq<char> {
        self.value@
    }
}

impl Clone for PluginComponentId {
    fn clone(&self) -> (r: PluginComponentId)
        ensures
            r@ == self@,
    {
        PluginComponentId { value: self.value.clone() }
    }
}

impl PluginComponentId {
    /// Checks and takes the text.
    pub fn parse(value: String) -> (r: Result<PluginComponentId, ExtensionIdentityError>)
        ensures
            match r {
                Ok(v) => component_id_ok(value@) && v@ == value@,
                Err(e) => !(component_id_ok(value@)) && e == ExtensionIdentityError::InvalidComponentId,
            },
    {
        if !is_component_id(value.as_str()) {
            return Err(ExtensionIdentityError::InvalidComponentId);
        }
        Ok(PluginComponentId { value })
    }

    /// The text.
    pub fn as_str(&self) -> (r: &str)
        ensures
            r@ == self@,
    {
        self.value.as_str()
    }
}

/// The version of a plugin, in canonical form.
#[derive(Debug, PartialEq, Eq, PartialOrd, Ord, Hash)]
pub struct PluginVersion {
    value: String,
}

impl View for PluginVersion {
    type V = Seq<char>;

    closed spec fn view(&self) -> Seq<char> {
        self.value@
    }
}

impl Clone for PluginVersion {
    fn clone(&self) -> (r: PluginVersion)
        ensures
            r@ == self@,
    {
        PluginVersion { value: self.value.clone() }
    }
}

impl PluginVersion {
    /// Checks and takes the text.
    pub fn parse(value: String) -> (r: Result<PluginVersion, ExtensionIdentityError>)
        ensures
            match r {
                Ok(v) => canonical_version(value@) && v@ == value@,
                Err(e) => !(canonical_version(value@)) && e == ExtensionIdentityError::InvalidVersion,
            },
    {
        if !is_canonical_version(value.as_str()) {
            return Err(ExtensionIdentityError::InvalidVersion);
        }
        Ok(PluginVersion { value })
    }

    /// The text.
    pub fn as_str(&self) -> (r: &str)
        ensures
            r@ == self@,
    {
        self.value.as_str()
    }
}

/// A digest: 64 lowercase hexadecimal digits.
#[derive(Debug, PartialEq, Eq, PartialOrd, Ord, Hash)]
pub struct Sha256Digest {
    value: String,
}

impl View for Sha256Digest {
    type V = Seq<char>;

    closed spec fn view(&self) -> Seq<char> {
        self.value@
    }
}

impl Clone for Sha256Digest {
    fn clone(&self) -> (r: Sha256Digest)
        ensures
            r@ == self@,
    {
        Sha256Digest { value: self.value.clone() }
    }
}

impl Sha256Digest {
    /// Checks and takes the text.
    pub fn parse(value: String) -> (r: Result<Sha256Digest, ExtensionIdentityError>)
        ensures
            match r {
                Ok(v) => is_digest(value@) && v@ == value@,
                Err(e) => !(is_digest(value@)) && e == ExtensionIdentityError::InvalidDigest,
            },
    {
        if !digest_shaped(value.as_str()) {
            return Err(ExtensionIdentityError::InvalidDigest);
        }
        Ok(Sha256Digest { value })
    }

    /// The text.
    pub fn as_str(&self) -> (r: &str)
        ensures
            r@ == self@,
    {
        self.value.as_str()
    }
}

/// A path in a package.
#[derive(Debug, PartialEq, Eq, PartialOrd, Ord, Hash)]
pub struct ManifestPath {
    value: String,
}

impl View for ManifestPath {
    type V = Seq<char>;

    closed spec fn view(&self) -> Seq<char> {
        self.value@
    }
}

impl Clone for ManifestPath {
    fn clone(&self) -> (r: ManifestPath)
        ensures
            r@ == self@,
    {
        ManifestPath { value: self.value.clone() }
    }
}

impl ManifestPath {
    /// Checks and takes the text.
    pub fn parse(value: String) -> (r: Result<ManifestPath, ManifestError>)
        ensures
            match r {
                Ok(v) => manifest_path_ok(value@) && v@ == value@,
                Err(e) => !(manifest_path_ok(value@)) && e == ManifestError::InvalidPath,
            },
    {
        if !is_manifest_path(value.as_str()) {
            return Err(ManifestError::InvalidPath);
        }
        Ok(ManifestPath { value })
    }

    /// The text.
    pub fn as_str(&self) -> (r: &str)
        ensures
            r@ == self@,
    {
        self.value.as_str()
    }
}

/// The version of a protocol: greater than zero.
#[derive(Clone, Copy, Debug, PartialEq, Eq, PartialOrd, Ord, Hash, Structural)]
pub struct ProtocolVersion {
    value: u16,
}

impl View for ProtocolVersion {
    type V = u16;

    closed spec fn view(&self) -> u16 {
        self.value
    }
}

impl ProtocolVersion {
    #[verifier::type_invariant]
    spec fn positive(self) -> bool {
        self.value > 0
    }

    /// Checks and takes the number.
    pub fn new(value: u16) -> (r: Result<ProtocolVersion, ExtensionIdentityError>)
        ensures
            match r {
                Ok(v) => value > 0 && v@ == value,
                Err(e) => value == 0 && e == ExtensionIdentityError::InvalidProtocolVersion,
            },
    {
        if value == 0 {
            return Err(ExtensionIdentityError::InvalidProtocolVersion);
        }
        Ok(ProtocolVersion { value })
    }

    /// The number.
    pub fn get(self) -> (r: u16)
        ensures
            r == self@,
            r > 0,
    {
        proof {
            use_type_invariant(&self);
        }
        self.value
    }
}

/// What runs a plugin.
#[derive(Clone, Copy, Debug, PartialEq, Eq, PartialOrd, Ord, Hash, Structural)]
pub enum PluginRuntime {
    WasmComponent,
    Subprocess,
}

impl PluginRuntime {
    /// The name on the wire.
    pub open spec fn name(self) -> Seq<char> {
        match self {
            PluginRuntime::WasmComponent => "wasm-component"@,
            PluginRuntime::Subprocess => "subprocess"@,
        }
    }

    /// The name on the wire.
    pub fn as_str(self) -> (r: &'static str)
        ensures
            r@ == self.name(),
    {
        match self {
            PluginRuntime::WasmComponent => "wasm-component",
            PluginRuntime::Subprocess => "subprocess",
        }
    }
}

/// How a plugin is run.
#[derive(Clone, Debug, PartialEq, Eq)]
pub struct PluginRuntimeManifest {
    runtime: PluginRuntime,
    entrypoint: ManifestPath,
    protocol_version: ProtocolVersion,
}

/// The model of a `PluginRuntimeManifest`.
pub struct RuntimeManifestView {
    pub runtime: PluginRuntime,
    pub entrypoint: Seq<char>,
    pub protocol_version: u16,
}

impl View for PluginRuntimeManifest {
    type V = RuntimeManifestView;

    closed spec fn view(&self) -> RuntimeManifestView {
        RuntimeManifestView {
            runtime: self.runtime,
            entrypoint: self.entrypoint@,
            protocol_version: self.protocol_version@,
        }
    }
}

impl PluginRuntimeManifest {
    /// Takes the parts.
    pub fn new(
        runtime: PluginRuntime,
        entrypoint: ManifestPath,
        protocol_version: ProtocolVersion,
    ) -> (r: PluginRuntimeManifest)
        ensures
            r@ == (RuntimeManifestView {
                runtime,
                entrypoint: entrypoint@,
                protocol_version: protocol_version@,
            }),
    {
        PluginRuntimeManifest {
            runtime,
            entrypoint,
            protocol_version,
        }
    }

    /// What runs the plugin.
    pub fn runtime(&self) -> (r: PluginRuntime)
        ensures
            r == self@.runtime,
    {
        self.runtime
    }

    /// The file that is run.
    pub fn entrypoint(&self) -> (r: &ManifestPath)
        ensures
            r@ == self@.entrypoint,
    {
        &self.entrypoint
    }

    /// The version of the protocol.
    pub fn protocol_version(&self) -> (r: ProtocolVersion)
        ensures
            r@ == self@.protocol_version,
    {
        self.protocol_version
    }
}

/// What a component is.
#[derive(Clone, Copy, Debug, PartialEq, Eq, Structural)]
pub enum PluginComponentKind {
    Tool,
}

/// What a capability is asked for.
#[derive(Clone, Copy, Debug, PartialEq, Eq, Structural)]
pub enum ManifestCapabilityScope {
    Workspace,
}

/// A capability that a component asks for.
#[derive(Clone, Debug, PartialEq, Eq)]
pub struct ManifestCapabilityRequest {
    name: CapabilityName,
    scope: ManifestCapabilityScope,
}

/// The model of a `ManifestCapabilityRequest`.
pub struct CapabilityRequestView {
    pub name: CapabilityName,
    pub scope: ManifestCapabilityScope,
}

impl View for ManifestCapabilityRequest {
    type V = CapabilityRequestView;

    closed spec fn view(&self) -> CapabilityRequestView {
        CapabilityRequestView {
            name: self.name,
            scope: self.scope,
        }
    }
}

impl ManifestCapabilityRequest {
    /// Takes the parts.
    pub fn new(name: CapabilityName, scope: ManifestCapabilityScope) -> (r: ManifestCapabilityRequest)
        ensures
            r@ == (CapabilityRequestView {
                name,
                scope,
            }),
    {
        ManifestCapabilityRequest {
            name,
            scope,
        }
    }

    /// The capability.
    pub fn name(&self) -> (r: CapabilityName)
        ensures
            r == self@.name,
    {
        self.name
    }

    /// What it is asked for.
    pub fn scope(&self) -> (r: ManifestCapabilityScope)
        ensures
            r == self@.scope,
    {
        self.scope
    }
}

/// A component of a plugin.
#[derive(Clone, Debug, PartialEq, Eq)]
pub struct PluginComponentManifest {
    id: PluginComponentId,
    kind: PluginComponentKind,
    description: String,
    input_schema: ManifestPath,
    output_schema: ManifestPath,
    action_kinds: Vec<ActionKind>,
    capabilities: Vec<ManifestCapabilityRequest>,
}

/// The model of a `PluginComponentManifest`.
pub struct ComponentManifestView {
    pub id: Seq<char>,
    pub kind: PluginComponentKind,
    pub description: Seq<char>,
    pub input_schema: Seq<char>,
    pub output_schema: Seq<char>,
    pub action_kinds: Seq<Seq<char>>,
    pub capabilities: Seq<CapabilityRequestView>,
}

impl View for PluginComponentManifest {
    type V = ComponentManifestView;

    closed spec fn view(&self) -> ComponentManifestView {
        ComponentManifestView {
            id: self.id@,
            kind: self.kind,
            description: self.description@,
            input_schema: self.input_schema@,
            output_schema: self.output_schema@,
            action_kinds: views(self.action_kinds@),
            capabilities: views(self.capabilities@),
        }
    }
}

impl PluginComponentManifest {
    /// Takes the parts.
    pub fn new(
        id: PluginComponentId,
        kind: PluginComponentKind,
        description: String,
        input_schema: ManifestPath,
        output_schema: ManifestPath,
        action_kinds: Vec<ActionKind>,
        capabilities: Vec<ManifestCapabilityRequest>,
    ) -> (r: PluginComponentManifest)
        ensures
            r@ == (ComponentManifestView {
                id: id@,
                kind,
                description: description@,
                input_schema: input_schema@,
                output_schema: output_schema@,
                action_kinds: views(action_kinds@),
                capabilities: views(capabilities@),
            }),
    {
        PluginComponentManifest {
            id,
            kind,
            description,
            input_schema,
            output_schema,
            action_kinds,
            capabilities,
        }
    }

    /// The name.
    pub fn id(&self) -> (r: &PluginComponentId)
        ensures
            r@ == self@.id,
    {
        &self.id
    }

    /// What it is.
    pub fn kind(&self) -> (r: PluginComponentKind)
        ensures
            r == self@.kind,
    {
        self.kind
    }

    /// What it does.
    pub fn description(&self) -> (r: &str)
        ensures
            r@ == self@.description,
    {
        self.description.as_str()
    }

    /// The schema of its input.
    pub fn input_schema(&self) -> (r: &ManifestPath)
        ensures
            r@ == self@.input_schema,
    {
        &self.input_schema
    }

    /// The schema of its output.
    pub fn output_schema(&self) -> (r: &ManifestPath)
        ensures
            r@ == self@.output_schema,
    {
        &self.output_schema
    }

    /// The kinds of actions that it may propose.
    pub fn action_kinds(&self) -> (r: &Vec<ActionKind>)
        ensures
            views(r@) == self@.action_kinds,
    {
        &self.action_kinds
    }

    /// The capabilities that it asks for.
    pub fn capabilities(&self) -> (r: &Vec<ManifestCapabilityRequest>)
        ensures
            views(r@) == self@.capabilities,
    {
        &self.capabilities
    }
}

/// The settings of a plugin.
#[derive(Clone, Debug, PartialEq, Eq)]
pub struct PluginSettingsManifest {
    schema: ManifestPath,
}

/// The model of a `PluginSettingsManifest`.
pub struct SettingsManifestView {
    pub schema: Seq<char>,
}

impl View for PluginSettingsManifest {
    type V = SettingsManifestView;

    closed spec fn view(&self) -> SettingsManifestView {
        SettingsManifestView {
            schema: self.schema@,
        }
    }
}

impl PluginSettingsManifest {
    /// Takes the parts.
    pub fn new(schema: ManifestPath) -> (r: PluginSettingsManifest)
        ensures
            r@ == (SettingsManifestView {
                schema: schema@,
            }),
    {
        PluginSettingsManifest {
            schema,
        }
    }

    /// The schema of the settings.
    pub fn schema(&self) -> (r: &ManifestPath)
        ensures
            r@ == self@.schema,
    {
        &self.schema
    }
}

/// How an artifact is digested.
#[derive(Clone, Copy, Debug, PartialEq, Eq, Structural)]
pub enum IntegrityAlgorithm {
    Sha256,
}

/// What a plugin must hash to.
#[derive(Clone, Debug, PartialEq, Eq)]
pub struct PluginIntegrityManifest {
    algorithm: IntegrityAlgorithm,
    artifact: Sha256Digest,
}

/// The model of a `PluginIntegrityManifest`.
pub struct IntegrityManifestView {
    pub algorithm: IntegrityAlgorithm,
    pub artifact: Seq<char>,
}

impl View for PluginIntegrityManifest {
    type V = IntegrityManifestView;

    closed spec fn view(&self) -> IntegrityManifestView {
        IntegrityManifestView {
            algorithm: self.algorithm,
            artifact: self.artifact@,
        }
    }
}

impl PluginIntegrityManifest {
    /// Takes the parts.
    pub fn new(algorithm: IntegrityAlgorithm, artifact: Sha256Digest) -> (r: PluginIntegrityManifest)
        ensures
            r@ == (IntegrityManifestView {
                algorithm,
                artifact: artifact@,
            }),
    {
        PluginIntegrityManifest {
            algorithm,
            artifact,
        }
    }

    /// How the artifact is digested.
    pub fn algorithm(&self) -> (r: IntegrityAlgorithm)
        ensures
            r == self@.algorithm,
    {
        self.algorithm
    }

    /// The digest of the artifact.
    pub fn artifact(&self) -> (r: &Sha256Digest)
        ensures
            r@ == self@.artifact,
    {
        &self.artifact
    }
}

/// What a plugin says of itself.
#[derive(Clone, Debug, PartialEq, Eq)]
pub struct PluginManifest {
    manifest_version: u16,
    id: PluginId,
    name: String,
    version: PluginVersion,
    description: String,
    runtime: PluginRuntimeManifest,
    components: Vec<PluginComponentManifest>,
    settings: Option<PluginSettingsManifest>,
    integrity: PluginIntegrityManifest,
}

/// The model of a `PluginManifest`.
pub struct ManifestView {
    pub manifest_version: u16,
    pub id: Seq<char>,
    pub name: Seq<char>,
    pub version: Seq<char>,
    pub description: Seq<char>,
    pub runtime: RuntimeManifestView,
    pub components: Seq<ComponentManifestView>,
    pub settings: Option<SettingsManifestView>,
    pub integrity: IntegrityManifestView,
}

impl View for PluginManifest {
    type V = ManifestView;

    closed spec fn view(&self) -> ManifestView {
        ManifestView {
            manifest_version: self.manifest_version,
            id: self.id@,
            name: self.name@,
            version: self.version@,
            description: self.description@,
            runtime: self.runtime@,
            components: views(self.components@),
            settings: opt_model(self.settings),
            integrity: self.integrity@,
        }
    }
}

/// A component before `k` has the given name.
pub open spec fn component_before(c: Seq<ComponentManifestView>, id: Seq<char>, k: int) -> bool {
    exists|j: int| 0 <= j < k && (#[trigger] c[j]).id == id
}

/// The first reason, from component `k` on, why a component is refused.
pub open spec fn first_component_flaw(c: Seq<ComponentManifestView>, k: int) -> Option<
    ManifestError,
>
    decreases c.len() - k,
{
    if k < 0 || k >= c.len() {
        None
    } else if component_before(c, c[k].id, k) {
        Some(ManifestError::DuplicateComponent)
    } else if !plain_text(c[k].description, 1024) || c[k].action_kinds.len() > 128
        || c[k].capabilities.len() > 128 {
        Some(ManifestError::InvalidComponent)
    } else {
        first_component_flaw(c, k + 1)
    }
}

impl ManifestView {
    /// What is wrong with the manifest.
    pub open spec fn flaw(self) -> Option<ManifestError> {
        if self.manifest_version != 1 {
            Some(ManifestError::UnsupportedVersion)
        } else if !plain_text(self.name, 128) || !plain_text(self.description, 1024) {
            Some(ManifestError::InvalidText)
        } else if self.components.len() == 0 || self.components.len() > 128 {
            Some(ManifestError::InvalidComponentCount)
        } else {
            first_component_flaw(self.components, 0)
        }
    }
}

fn check_components(c: &Vec<PluginComponentManifest>) -> (r: Result<(), ManifestError>)
    ensures
        match r {
            Ok(()) => first_component_flaw(views(c@), 0) is None,
            Err(e) => first_component_flaw(views(c@), 0) == Some(e),
        },
{
    let ghost all = views(c@);
    let mut k: usize = 0;
    while k < c.len()
        invariant
            k <= c@.len(),
            all == views(c@),
            first_component_flaw(all, 0) == first_component_flaw(all, k as int),
        decreases c@.len() - k,
    {
        proof {
            assert(all[k as int] == c@[k as int]@);
        }
        let mut j: usize = 0;
        while j < k
            invariant
                j <= k < c@.len(),
                all == views(c@),
                all[k as int] == c@[k as int]@,
                first_component_flaw(all, 0) == first_component_flaw(all, k as int),
                forall|i: int| 0 <= i < j ==> (#[trigger] all[i]).id != all[k as int].id,
            decreases k - j,
        {
            proof {
                assert(all[j as int] == c@[j as int]@);
            }
            if str_eq(c[j].id.as_str(), c[k].id.as_str()) {
                return Err(ManifestError::DuplicateComponent);
            }
            j += 1;
        }
        if !is_plain_text(c[k].description.as_str(), 1024) || c[k].action_kinds.len() > 128
            || c[k].capabilities.len() > 128 {
            return Err(ManifestError::InvalidComponent);
        }
        k += 1;
    }
    Ok(())
}

impl PluginManifest {
    /// Checks and takes the parts.
    pub fn new(
        manifest_version: u16,
        id: PluginId,
        name: String,
        version: PluginVersion,
        description: String,
        runtime: PluginRuntimeManifest,
        components: Vec<PluginComponentManifest>,
        settings: Option<PluginSettingsManifest>,
        integrity: PluginIntegrityManifest,
    ) -> (r: Result<PluginManifest, ManifestError>)
        ensures
            ({
                let v = ManifestView {
                    manifest_version,
                    id: id@,
                    name: name@,
                    version: version@,
                    description: description@,
                    runtime: runtime@,
                    components: views(components@),
                    settings: opt_model(settings),
                    integrity: integrity@,
                };
                match r {
                    Ok(m) => v.flaw() is None && m@ == v,
                    Err(e) => v.flaw() == Some(e),
                }
            }),
    {
        if manifest_version != 1 {
            return Err(ManifestError::UnsupportedVersion);
        }
        if !is_plain_text(name.as_str(), 128) || !is_plain_text(description.as_str(), 1024) {
            return Err(ManifestError::InvalidText);
        }
        if components.len() == 0 || components.len() > 128 {
            return Err(ManifestError::InvalidComponentCount);
        }
        match check_components(&components) {
            Ok(()) => {},
            Err(e) => {
                return Err(e);
            },
        }
        Ok(
            PluginManifest {
                manifest_version,
                id,
                name,
                version,
                description,
                runtime,
                components,
                settings,
                integrity,
            },
        )
    }

    /// The version of the manifest.
    pub fn manifest_version(&self) -> (r: u16)
        ensures
            r == self@.manifest_version,
    {
        self.manifest_version
    }

    /// The name of the plugin.
    pub fn id(&self) -> (r: &PluginId)
        ensures
            r@ == self@.id,
    {
        &self.id
    }

    /// The name that people see.
    pub fn name(&self) -> (r: &str)
        ensures
            r@ == self@.name,
    {
        self.name.as_str()
    }

    /// The version of the plugin.
    pub fn version(&self) -> (r: &PluginVersion)
        ensures
            r@ == self@.version,
    {
        &self.version
    }

    /// What the plugin does.
    pub fn description(&self) -> (r: &str)
        ensures
            r@ == self@.description,
    {
        self.description.as_str()
    }

    /// How it is run.
    pub fn runtime(&self) -> (r: &PluginRuntimeManifest)
        ensures
            r@ == self@.runtime,
    {
        &self.runtime
    }

    /// Its components.
    pub fn components(&self) -> (r: &Vec<PluginComponentManifest>)
        ensures
            views(r@) == self@.components,
    {
        &self.components
    }

    /// Its settings.
    pub fn settings(&self) -> (r: Option<&PluginSettingsManifest>)
        ensures
            match r {
                Some(v) => self@.settings == Some(v@),
                None => self@.settings is None,
            },
    {
        match &self.settings {
            Some(v) => Some(v),
            None => None,
        }
    }

    /// What it must hash to.
    pub fn integrity(&self) -> (r: &PluginIntegrityManifest)
        ensures
            r@ == self@.integrity,
    {
        &self.integrity
    }
}

/// The components of a manifest have different names.
pub proof fn components_have_distinct_names(m: ManifestView, i: int, j: int)
    requires
        m.flaw() is None,
        0 <= i < j < m.components.len(),
    ensures
        m.components[i].id != m.components[j].id,
{
    no_component_repeats(m.components, 0, j);
    if m.components[i].id == m.components[j].id {
        assert(component_before(m.components, m.components[j].id, j));
    }
}

proof fn no_component_repeats(c: Seq<ComponentManifestView>, from: int, k: int)
    requires
        0 <= from <= k < c.len(),
        first_component_flaw(c, from) is None,
    ensures
        !component_before(c, c[k].id, k),
    decreases k - from,
{
    if from < k {
        no_component_repeats(c, from + 1, k);
    }
}

/// How much an invocation may use.
#[derive(Clone, Copy, Debug, PartialEq, Eq, Structural)]
pub struct ExtensionInvocationLimits {
    pub deadline_millis: u64,
    pub max_result_bytes: u64,
    pub fuel: u64,
    pub max_memory_bytes: u64,
}

impl ExtensionInvocationLimits {
    /// Checks and takes the parts.
    pub fn new(deadline_millis: u64, max_result_bytes: u64, fuel: u64, max_memory_bytes: u64) -> (r:
        Result<ExtensionInvocationLimits, InvocationContractError>)
        ensures
            ({
                let ok = deadline_millis > 0 && max_result_bytes > 0 && fuel > 0
                    && max_memory_bytes > 0;
                match r {
                    Ok(l) => ok && l == (ExtensionInvocationLimits {
                        deadline_millis,
                        max_result_bytes,
                        fuel,
                        max_memory_bytes,
                    }),
                    Err(e) => !ok && e == InvocationContractError::InvalidLimits,
                }
            }),
    {
        if deadline_millis == 0 || max_result_bytes == 0 || fuel == 0 || max_memory_bytes == 0 {
            return Err(InvocationContractError::InvalidLimits);
        }
        Ok(
            ExtensionInvocationLimits { deadline_millis, max_result_bytes, fuel, max_memory_bytes },
        )
    }

    /// How long it may take.
    pub fn deadline_millis(self) -> (r: u64)
        ensures
            r == self.deadline_millis,
    {
        self.deadline_millis
    }

    /// How long its result may be.
    pub fn max_result_bytes(self) -> (r: u64)
        ensures
            r == self.max_result_bytes,
    {
        self.max_result_bytes
    }

    /// How many steps it may take.
    pub fn fuel(self) -> (r: u64)
        ensures
            r == self.fuel,
    {
        self.fuel
    }

    /// How much memory it may use.
    pub fn max_memory_bytes(self) -> (r: u64)
        ensures
            r == self.max_memory_bytes,
    {
        self.max_memory_bytes
    }
}

/// Whose fault a failure is.
#[derive(Clone, Copy, Debug, PartialEq, Eq, Structural)]
pub enum ExtensionFailureClass {
    PluginFault,
    HostFault,
    PolicyDenied,
    Cancelled,
    ResourceExhaustion,
}

impl ExtensionFailureClass {
    /// The name on the wire.
    pub open spec fn name(self) -> Seq<char> {
        match self {
            ExtensionFailureClass::PluginFault => "plugin_fault"@,
            ExtensionFailureClass::HostFault => "host_fault"@,
            ExtensionFailureClass::PolicyDenied => "policy_denied"@,
            ExtensionFailureClass::Cancelled => "cancelled"@,
            ExtensionFailureClass::ResourceExhaustion => "resource_exhaustion"@,
        }
    }

    /// The name on the wire.
    pub fn as_str(self) -> (r: &'static str)
        ensures
            r@ == self.name(),
    {
        match self {
            ExtensionFailureClass::PluginFault => "plugin_fault",
            ExtensionFailureClass::HostFault => "host_fault",
            ExtensionFailureClass::PolicyDenied => "policy_denied",
            ExtensionFailureClass::Cancelled => "cancelled",
            ExtensionFailureClass::ResourceExhaustion => "resource_exhaustion",
        }
    }
}

impl ExtensionFailureClass {
    /// Whether the failure counts against the plugin.
    pub fn counts_toward_health(self) -> (r: bool)
        ensures
            r == (self == ExtensionFailureClass::PluginFault || self
                == ExtensionFailureClass::ResourceExhaustion),
    {
        match self {
            ExtensionFailureClass::PluginFault | ExtensionFailureClass::ResourceExhaustion => true,
            _ => false,
        }
    }
}

/// The failure of an invocation.
#[derive(Clone, Debug, PartialEq, Eq)]
pub struct ExtensionFailure {
    class: ExtensionFailureClass,
    message: String,
}

/// The model of a `ExtensionFailure`.
pub struct FailureView {
    pub class: ExtensionFailureClass,
    pub message: Seq<char>,
}

impl View for ExtensionFailure {
    type V = FailureView;

    closed spec fn view(&self) -> FailureView {
        FailureView {
            class: self.class,
            message: self.message@,
        }
    }
}

/// A message of a failure: not empty, not too long, without control characters.
pub open spec fn failure_text_ok(s: Seq<char>) -> bool {
    0 < s.len() && byte_len(s) <= 4096 && no_control(s)
}

impl ExtensionFailure {
    /// Checks and takes the parts.
    pub fn new(class: ExtensionFailureClass, message: String) -> (r: Result<
        ExtensionFailure,
        InvocationContractError,
    >)
        ensures
            match r {
                Ok(f) => failure_text_ok(message@) && f@ == (FailureView {
                    class,
                    message: message@,
                }),
                Err(e) => !failure_text_ok(message@) && e
                    == InvocationContractError::InvalidFailure,
            },
    {
        if message.as_str().is_empty() || str_byte_len(message.as_str()) > 4096 || !lacks_control(
            message.as_str(),
        ) {
            return Err(InvocationContractError::InvalidFailure);
        }
        Ok(ExtensionFailure { class, message })
    }

    /// Whose fault it is.
    pub fn class(&self) -> (r: ExtensionFailureClass)
        ensures
            r == self@.class,
    {
        self.class
    }

    /// What happened.
    pub fn message(&self) -> (r: &str)
        ensures
            r@ == self@.message,
    {
        self.message.as_str()
    }
}

/// What a plugin answers.
#[derive(Clone, Debug, PartialEq, Eq)]
pub enum ExtensionResponse {
    Result { value: CanonicalValue },
    Proposal { kind: ActionKind, arguments: CanonicalValue },
    Failure { failure: ExtensionFailure },
}

/// The model of an `ExtensionResponse`.
pub enum ExtensionResponseView {
    Result { value: JsonView },
    Proposal { kind: Seq<char>, arguments: JsonView },
    Failure { failure: FailureView },
}

impl View for ExtensionResponse {
    type V = ExtensionResponseView;

    open spec fn view(&self) -> ExtensionResponseView {
        match *self {
            ExtensionResponse::Result { value } => ExtensionResponseView::Result { value: value@ },
            ExtensionResponse::Proposal { kind, arguments } => ExtensionResponseView::Proposal {
                kind: kind@,
                arguments: arguments@,
            },
            ExtensionResponse::Failure { failure } => ExtensionResponseView::Failure {
                failure: failure@,
            },
        }
    }
}

impl ExtensionResponse {
    /// A result.
    pub fn result(value: CanonicalValue) -> (r: ExtensionResponse)
        ensures
            r@ == (ExtensionResponseView::Result { value: value@ }),
    {
        ExtensionResponse::Result { value }
    }

    /// A proposal of an action.
    pub fn proposal(kind: ActionKind, arguments: CanonicalValue) -> (r: ExtensionResponse)
        ensures
            r@ == (ExtensionResponseView::Proposal { kind: kind@, arguments: arguments@ }),
    {
        ExtensionResponse::Proposal { kind, arguments }
    }

    /// A failure.
    pub fn failure(failure: ExtensionFailure) -> (r: ExtensionResponse)
        ensures
            r@ == (ExtensionResponseView::Failure { failure: failure@ }),
    {
        ExtensionResponse::Failure { failure }
    }
}

/// Which component of which plugin acts, and under what.
#[derive(Clone, Debug, PartialEq, Eq)]
pub struct ExtensionProvenance {
    plugin_id: PluginId,
    plugin_version: PluginVersion,
    component_id: PluginComponentId,
    runtime: PluginRuntime,
    package_digest: Sha256Digest,
    manifest_digest: Sha256Digest,
    artifact_digest: Sha256Digest,
    settings_digest: Sha256Digest,
    grant_set_digest: Sha256Digest,
    protocol_version: ProtocolVersion,
    parent_action_id: Option<ActionId>,
}

/// The model of a `ExtensionProvenance`.
pub struct ExtensionProvenanceView {
    pub plugin_id: Seq<char>,
    pub plugin_version: Seq<char>,
    pub component_id: Seq<char>,
    pub runtime: PluginRuntime,
    pub package_digest: Seq<char>,
    pub manifest_digest: Seq<char>,
    pub artifact_digest: Seq<char>,
    pub settings_digest: Seq<char>,
    pub grant_set_digest: Seq<char>,
    pub protocol_version: u16,
    pub parent_action_id: Option<ActionId>,
}

impl View for ExtensionProvenance {
    type V = ExtensionProvenanceView;

    closed spec fn view(&self) -> ExtensionProvenanceView {
        ExtensionProvenanceView {
            plugin_id: self.plugin_id@,
            plugin_version: self.plugin_version@,
            component_id: self.component_id@,
            runtime: self.runtime,
            package_digest: self.package_digest@,
            manifest_digest: self.manifest_digest@,
            artifact_digest: self.artifact_digest@,
            settings_digest: self.settings_digest@,
            grant_set_digest: self.grant_set_digest@,
            protocol_version: self.protocol_version@,
            parent_action_id: self.parent_action_id,
        }
    }
}

impl ExtensionProvenance {
    /// Takes the parts.
    pub fn new(
        plugin_id: PluginId,
        plugin_version: PluginVersion,
        component_id: PluginComponentId,
        runtime: PluginRuntime,
        package_digest: Sha256Digest,
        manifest_digest: Sha256Digest,
        artifact_digest: Sha256Digest,
        settings_digest: Sha256Digest,
        grant_set_digest: Sha256Digest,
        protocol_version: ProtocolVersion,
        parent_action_id: Option<ActionId>,
    ) -> (r: ExtensionProvenance)
        ensures
            r@ == (ExtensionProvenanceView {
                plugin_id: plugin_id@,
                plugin_version: plugin_version@,
                component_id: component_id@,
                runtime,
                package_digest: package_digest@,
                manifest_digest: manifest_digest@,
                artifact_digest: artifact_digest@,
                settings_digest: settings_digest@,
                grant_set_digest: grant_set_digest@,
                protocol_version: protocol_version@,
                parent_action_id,
            }),
    {
        ExtensionProvenance {
            plugin_id,
            plugin_version,
            component_id,
            runtime,
            package_digest,
            manifest_digest,
            artifact_digest,
            settings_digest,
            grant_set_digest,
            protocol_version,
            parent_action_id,
        }
    }

    /// The plugin.
    pub fn plugin_id(&self) -> (r: &PluginId)
        ensures
            r@ == self@.plugin_id,
    {
        &self.plugin_id
    }

    /// Its version.
    pub fn plugin_version(&self) -> (r: &PluginVersion)
        ensures
            r@ == self@.plugin_version,
    {
        &self.plugin_version
    }

    /// The component.
    pub fn component_id(&self) -> (r: &PluginComponentId)
        ensures
            r@ == self@.component_id,
    {
        &self.component_id
    }

    /// What runs it.
    pub fn runtime(&self) -> (r: PluginRuntime)
        ensures
            r == self@.runtime,
    {
        self.runtime
    }

    /// The digest of the package.
    pub fn package_digest(&self) -> (r: &Sha256Digest)
        ensures
            r@ == self@.package_digest,
    {
        &self.package_digest
    }

    /// The digest of the manifest.
    pub fn manifest_digest(&self) -> (r: &Sha256Digest)
        ensures
            r@ == self@.manifest_digest,
    {
        &self.manifest_digest
    }

    /// The digest of the artifact.
    pub fn artifact_digest(&self) -> (r: &Sha256Digest)
        ensures
            r@ == self@.artifact_digest,
    {
        &self.artifact_digest
    }

    /// The digest of the settings.
    pub fn settings_digest(&self) -> (r: &Sha256Digest)
        ensures
            r@ == self@.settings_digest,
    {
        &self.settings_digest
    }

    /// The digest of what was granted.
    pub fn grant_set_digest(&self) -> (r: &Sha256Digest)
        ensures
            r@ == self@.grant_set_digest,
    {
        &self.grant_set_digest
    }

    /// The action that it was called for.
    pub fn parent_action_id(&self) -> (r: Option<ActionId>)
        ensures
            r == self@.parent_action_id,
    {
        self.parent_action_id
    }

    /// The version of the protocol.
    pub fn protocol_version(&self) -> (r: ProtocolVersion)
        ensures
            r@ == self@.protocol_version,
    {
        self.protocol_version
    }

    /// The key of the component.
    pub fn resource_key(&self) -> (r: String)
        ensures
            r@ == resource_text(self@.plugin_id, self@.plugin_version, self@.component_id),
    {
        let mut out = self.plugin_id.as_str().to_owned();
        out.push('@');
        out.append(self.plugin_version.as_str());
        out.push('#');
        out.append(self.component_id.as_str());
        proof {
            assert(out@ =~= resource_text(
                self@.plugin_id,
                self@.plugin_version,
                self@.component_id,
            ));
        }
        out
    }

    /// The same with another digest of the settings.
    pub fn with_settings_digest(self, digest: Sha256Digest) -> (r: ExtensionProvenance)
        ensures
            r@ == (ExtensionProvenanceView { settings_digest: digest@, ..self@ }),
    {
        let mut out = self;
        out.settings_digest = digest;
        out
    }

    /// The same with another digest of what was granted.
    pub fn with_grant_set_digest(self, digest: Sha256Digest) -> (r: ExtensionProvenance)
        ensures
            r@ == (ExtensionProvenanceView { grant_set_digest: digest@, ..self@ }),
    {
        let mut out = self;
        out.grant_set_digest = digest;
        out
    }
}

/// The key of a component.
pub open spec fn resource_text(id: Seq<char>, version: Seq<char>, component: Seq<char>) -> Seq<
    char,
> {
    id.push('@') + version.push('#') + component
}

proof fn label_lacks_at(s: Seq<char>)
    requires
        plugin_id_ok(s),
    ensures
        lacks(s, '@'),
{
    let parts = split(s, '.');
    reveal_strlit("-");
    assert forall|i: int| 0 <= i < parts.len() implies lacks(#[trigger] parts[i], '@') by {
        assert(label_ok(parts[i]));
    }
    crate::text::join_of_split(s, '.');
    joined_lacks(parts, '.', '@');
}

proof fn joined_lacks(parts: Seq<Seq<char>>, sep: char, c: char)
    requires
        sep != c,
        forall|i: int| 0 <= i < parts.len() ==> lacks(#[trigger] parts[i], c),
    ensures
        lacks(crate::text::join(parts, sep), c),
    decreases parts.len(),
{
    if parts.len() > 1 {
        let rest = parts.drop_last();
        assert forall|i: int| 0 <= i < rest.len() implies lacks(#[trigger] rest[i], c) by {
            assert(rest[i] == parts[i]);
        }
        joined_lacks(rest, sep, c);
        assert(lacks(parts[parts.len() - 1], c));
    } else if parts.len() == 1 {
        assert(lacks(parts[0], c));
    }
}

/// Two components with the same key are the same component of the same version
/// of the same plugin.
pub proof fn resource_keys_differ(
    id: Seq<char>,
    version: Seq<char>,
    component: Seq<char>,
    other_id: Seq<char>,
    other_version: Seq<char>,
    other_component: Seq<char>,
)
    requires
        plugin_id_ok(id),
        plugin_id_ok(other_id),
        component_id_ok(component),
        component_id_ok(other_component),
        resource_text(id, version, component) == resource_text(
            other_id,
            other_version,
            other_component,
        ),
    ensures
        id == other_id,
        version == other_version,
        component == other_component,
{
    let x = resource_text(id, version, component);
    let y = resource_text(other_id, other_version, other_component);
    let n = x.len() as int;
    label_lacks_at(id);
    label_lacks_at(other_id);
    reveal_strlit("._-");
    assert(lacks(component, '#'));
    assert(lacks(other_component, '#'));
    assert(x[id.len() as int] == '@');
    assert(y[other_id.len() as int] == '@');
    if id.len() < other_id.len() {
        assert(y[id.len() as int] == other_id[id.len() as int]);
    } else if other_id.len() < id.len() {
        assert(x[other_id.len() as int] == id[other_id.len() as int]);
    }
    let a = n - component.len() - 1;
    let b = n - other_component.len() - 1;
    assert(x[a] == '#');
    assert(y[b] == '#');
    if a < b {
        assert(x[b] == component[b - a - 1]);
    } else if b < a {
        assert(y[a] == other_component[a - b - 1]);
    }
    assert(x.subrange(0, id.len() as int) =~= id);
    assert(y.subrange(0, other_id.len() as int) =~= other_id);
    assert(x.subrange(a + 1, n) =~= component);
    assert(y.subrange(b + 1, n) =~= other_component);
    assert(x.subrange(id.len() as int + 1, a) =~= version);
    assert(y.subrange(other_id.len() as int + 1, b) =~= other_version);
}

/// The digest of some capabilities.
pub open spec fn grants_digest(c: Seq<CapabilityView>) -> Seq<char> {
    text_digest(plain(JsonView::Array(capabilities_json(c))))
}

/// The digest of what was granted: of the capabilities in ascending order, each
/// once.
pub fn canonical_grant_set_digest(grants: &[Capability]) -> (r: Sha256Digest)
    ensures
        exists|c: Seq<CapabilityView>|
            ascending(c) && (forall|x: CapabilityView| #[trigger]
                c.contains(x) <==> views(grants@).contains(x)) && r@ == #[trigger] grants_digest(c),
{
    let mut list: Vec<Capability> = Vec::new();
    let mut k: usize = 0;
    while k < grants.len()
        invariant
            k <= grants@.len(),
            list@.len() == k,
            forall|i: int| 0 <= i < k ==> (#[trigger] list@[i])@ == grants@[i]@,
        decreases grants@.len() - k,
    {
        list.push(grants[k].clone());
        k += 1;
    }
    proof {
        assert(views(list@) =~= views(grants@));
    }
    let ordered = ordered_capabilities(list);
    let mut items: Vec<Json> = Vec::new();
    let mut i: usize = 0;
    while i < ordered.len()
        invariant
            i <= ordered@.len(),
            items@.len() == i,
            forall|m: int| 0 <= m < i ==> (#[trigger] items@[m])@ == ordered@[m]@.json(),
        decreases ordered@.len() - i,
    {
        items.push(ordered[i].to_json());
        i += 1;
    }
    let ghost c = views(ordered@);
    proof {
        assert(item_models(items@) =~= capabilities_json(c));
    }
    let text = array(items).to_text();
    let r = Sha256Digest { value: sha256_hex_str(text.as_str()) };
    proof {
        assert(r@ == grants_digest(c));
    }
    r
}

/// The digest of what was granted does not depend on the order in which grants
/// are listed, nor on how often one is.
pub proof fn grants_digest_ignores_order(
    a: Seq<CapabilityView>,
    b: Seq<CapabilityView>,
)
    requires
        ascending(a),
        ascending(b),
        forall|x: CapabilityView| #[trigger] a.contains(x) <==> b.contains(x),
    ensures
        grants_digest(a) == grants_digest(b),
{
    ascending_lists_are_unique(a, b);
}

/// A manifest is in order exactly if it is of version 1, its name and its
/// description are plain, it lists between 1 and 128 components, and these have
/// different names, plain descriptions, and at most 128 kinds of action and 128
/// capabilities each.
pub proof fn manifests_are_checked_component_by_component(m: ManifestView)
    ensures
        m.flaw() is None <==> {
            &&& m.manifest_version == 1
            &&& plain_text(m.name, 128) && plain_text(m.description, 1024)
            &&& 1 <= m.components.len() <= 128
            &&& forall|i: int, j: int|
                #![trigger m.components[i], m.components[j]]
                0 <= i < j < m.components.len() ==> m.components[i].id != m.components[j].id
            &&& forall|i: int|
                0 <= i < m.components.len() ==> {
                    &&& plain_text((#[trigger] m.components[i]).description, 1024)
                    &&& m.components[i].action_kinds.len() <= 128
                    &&& m.components[i].capabilities.len() <= 128
                }
        },
{
    let c = m.components;
    component_flaws(c, 0);
    if first_component_flaw(c, 0) is None {
        assert forall|i: int, j: int| #![trigger c[i], c[j]] 0 <= i < j < c.len() implies c[i].id
            != c[j].id by {
            assert(component_sound(c, j));
        }
        assert forall|i: int| 0 <= i < c.len() implies {
            &&& plain_text((#[trigger] c[i]).description, 1024)
            &&& c[i].action_kinds.len() <= 128
            &&& c[i].capabilities.len() <= 128
        } by {
            assert(component_sound(c, i));
        }
    } else {
        let k = choose|k: int| 0 <= k < c.len() && !#[trigger] component_sound(c, k);
        if component_before(c, c[k].id, k) {
            let j = choose|j: int| 0 <= j < k && (#[trigger] c[j]).id == c[k].id;
            assert(c[j].id == c[k].id);
        }
    }
}

/// Nothing is wrong with component `k`.
spec fn component_sound(c: Seq<ComponentManifestView>, k: int) -> bool {
    &&& !component_before(c, c[k].id, k)
    &&& plain_text(c[k].description, 1024)
    &&& c[k].action_kinds.len() <= 128
    &&& c[k].capabilities.len() <= 128
}

proof fn component_flaws(c: Seq<ComponentManifestView>, from: int)
    requires
        0 <= from <= c.len(),
    ensures
        first_component_flaw(c, from) is None <==> forall|k: int|
            from <= k < c.len() ==> #[trigger] component_sound(c, k),
    decreases c.len() - from,
{
    if from < c.len() {
        component_flaws(c, from + 1);
        if forall|k: int| from <= k < c.len() ==> #[trigger] component_sound(c, k) {
            assert(component_sound(c, from));
        }
    }
}

/// What a digest of grants is taken of holds every grant: two lists with the
/// same digested value are the same list.
pub proof fn digested_grants_are_told_apart(a: Seq<CapabilityView>, b: Seq<CapabilityView>)
    requires
        capabilities_json(a) == capabilities_json(b),
    ensures
        a == b,
{
    let x = capabilities_json(a);
    let y = capabilities_json(b);
    assert(x.len() == a.len() && y.len() == b.len());
    assert forall|i: int| 0 <= i < a.len() implies #[trigger] a[i] == b[i] by {
        assert(x[i] == y[i]);
        capabilities_are_told_apart(a[i], b[i]);
    }
    assert(a =~= b);
}

/// A plugin's name is at most 255 bytes of three or more labels with dots
/// between them. Each label is at most 63 bytes of lower-case letters, digits
/// and hyphens of ASCII, at least one, and no hyphen at either end.
pub proof fn plugin_names_are_dotted_labels(s: Seq<char>)
    ensures
        plugin_id_ok(s) <==> {
            &&& byte_len(s) <= 255
            &&& split(s, '.').len() >= 3
            &&& forall|i: int|
                0 <= i < split(s, '.').len() ==> {
                    let part = #[trigger] split(s, '.')[i];
                    &&& part.len() > 0 && byte_len(part) <= 63
                    &&& part[0] != '-' && part[part.len() - 1] != '-'
                    &&& forall|k: int|
                        0 <= k < part.len() ==> {
                            let c = #[trigger] part[k];
                            'a' as int <= c as int <= 'z' as int || '0' as int <= c as int
                                <= '9' as int || c == '-'
                        }
                }
        },
{
    reveal_strlit("-");
    let x = "-"@;
    assert(x[0] == '-' && x.len() == 1);
    assert forall|c: char| #[trigger] x.contains(c) <==> c == '-' by {
        assert(x.contains(x[0]));
    }
    assert forall|part: Seq<char>| #[trigger]
        all_in_class(part, true, false, true, x) <==> forall|k: int|
            0 <= k < part.len() ==> {
                let c = #[trigger] part[k];
                'a' as int <= c as int <= 'z' as int || '0' as int <= c as int <= '9' as int || c
                    == '-'
            } by {}
}

} // verus!
