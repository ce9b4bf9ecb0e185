//! Context: the sources that a model may see, and the policy that says which.

use crate::action::CanonicalValue;
use crate::approval::TimestampMillis;
use crate::capability::{has_plain_segments, segments_ok};
use crate::digest::{sha256_hex, sha256_hex_str, sha256_hex_text, text_digest};
use crate::egress::{allowable, class_set, has_class, ordered_classes, DataClass};
use crate::identity::{PrincipalId, PrincipalView, WorkspaceId};
use crate::ids::{random_uuid, uuid_text, uuid_text_is_injective, uuid_to_text};
use crate::json::{
    array, item_models, no_fields, no_members, object, plain, put, string, Json, JsonView,
};
use crate::lists::views;
use crate::ordered::{all_within, TextSet};
use crate::provider::{ModelProfile, ModelProfileId, ModelTrustZone, ProfileView};
use crate::sorting::{text_set, text_set_members};
use crate::text::{
    byte_len, digest_shaped, is_digest, is_plain_text, is_trimmed, plain_text, str_byte_len,
    str_eq, texts, trimmed,
};
use vstd::prelude::*;

pub mod projection;

verus! {

/// Why context is refused.
#[derive(Debug, PartialEq, Eq)]
pub enum ContextError {
    InvalidCompartment,
    InvalidTaskKey,
    InvalidDigest,
    DigestMismatch,
    InvalidProvenance,
    InvalidDerivation,
    InvalidPolicy,
    ProfilePolicyMismatch,
    WorkspaceMismatch,
    DataClassDenied,
    CompartmentDenied,
    EmptyProjection,
    InvalidProjection,
    SecretSourceDenied,
    ProjectionBindingMismatch,
    ProviderBinding(String),
}

/// The model of a `ContextError`.
pub enum ContextErrorView {
    InvalidCompartment,
    InvalidTaskKey,
    InvalidDigest,
    DigestMismatch,
    InvalidProvenance,
    InvalidDerivation,
    InvalidPolicy,
    ProfilePolicyMismatch,
    WorkspaceMismatch,
    DataClassDenied,
    CompartmentDenied,
    EmptyProjection,
    InvalidProjection,
    SecretSourceDenied,
    ProjectionBindingMismatch,
    ProviderBinding(Seq<char>),
}

impl View for ContextError {
    type V = ContextErrorView;

    open spec fn view(&self) -> ContextErrorView {
        match *self {
            ContextError::InvalidCompartment => ContextErrorView::InvalidCompartment,
            ContextError::InvalidTaskKey => ContextErrorView::InvalidTaskKey,
            ContextError::InvalidDigest => ContextErrorView::InvalidDigest,
            ContextError::DigestMismatch => ContextErrorView::DigestMismatch,
            ContextError::InvalidProvenance => ContextErrorView::InvalidProvenance,
            ContextError::InvalidDerivation => ContextErrorView::InvalidDerivation,
            ContextError::InvalidPolicy => ContextErrorView::InvalidPolicy,
            ContextError::ProfilePolicyMismatch => ContextErrorView::ProfilePolicyMismatch,
            ContextError::WorkspaceMismatch => ContextErrorView::WorkspaceMismatch,
            ContextError::DataClassDenied => ContextErrorView::DataClassDenied,
            ContextError::CompartmentDenied => ContextErrorView::CompartmentDenied,
            ContextError::EmptyProjection => ContextErrorView::EmptyProjection,
            ContextError::InvalidProjection => ContextErrorView::InvalidProjection,
            ContextError::SecretSourceDenied => ContextErrorView::SecretSourceDenied,
            ContextError::ProjectionBindingMismatch => ContextErrorView::ProjectionBindingMismatch,
            ContextError::ProviderBinding(s) => ContextErrorView::ProviderBinding(s@),
        }
    }
}

impl ContextErrorView {
    /// The message of the error.
    pub open spec fn message(self) -> Seq<char> {
        match self {
            ContextErrorView::InvalidCompartment => "context compartment is invalid"@,
            ContextErrorView::InvalidTaskKey => "projection task key is invalid"@,
            ContextErrorView::InvalidDigest => "context digest is invalid"@,
            ContextErrorView::DigestMismatch => "context digest does not match immutable content"@,
            ContextErrorView::InvalidProvenance => "source provenance is invalid"@,
            ContextErrorView::InvalidDerivation => "derived context requires same-workspace source inputs"@,
            ContextErrorView::InvalidPolicy => "model data policy is invalid"@,
            ContextErrorView::ProfilePolicyMismatch =>
                "model profile does not match the data policy revision"@,
            ContextErrorView::WorkspaceMismatch => "context source belongs to another workspace"@,
            ContextErrorView::DataClassDenied => "context data class is not allowed for this model profile"@,
            ContextErrorView::CompartmentDenied =>
                "context compartment is not allowed for this model profile"@,
            ContextErrorView::EmptyProjection => "projection must contain at least one source"@,
            ContextErrorView::InvalidProjection => "projection metadata is invalid"@,
            ContextErrorView::SecretSourceDenied => "secret-class context may not enter model context"@,
            ContextErrorView::ProjectionBindingMismatch =>
                "projection binding does not match the selected model/policy"@,
            ContextErrorView::ProviderBinding(s) => "provider/model binding is invalid: "@ + s,
        }
    }
}

impl ContextError {
    /// The message of the error.
    pub fn message(&self) -> (r: String)
        ensures
            r@ == self@.message(),
    {
        match self {
            ContextError::InvalidCompartment => "context compartment is invalid".to_owned(),
            ContextError::InvalidTaskKey => "projection task key is invalid".to_owned(),
            ContextError::InvalidDigest => "context digest is invalid".to_owned(),
            ContextError::DigestMismatch => "context digest does not match immutable content".to_owned(),
            ContextError::InvalidProvenance => "source provenance is invalid".to_owned(),
            ContextError::InvalidDerivation =>
                "derived context requires same-workspace source inputs".to_owned(),
            ContextError::InvalidPolicy => "model data policy is invalid".to_owned(),
            ContextError::ProfilePolicyMismatch =>
                "model profile does not match the data policy revision".to_owned(),
            ContextError::WorkspaceMismatch => "context source belongs to another workspace".to_owned(),
            ContextError::DataClassDenied =>
                "context data class is not allowed for this model profile".to_owned(),
            ContextError::CompartmentDenied =>
                "context compartment is not allowed for this model profile".to_owned(),
            ContextError::EmptyProjection => "projection must contain at least one source".to_owned(),
            ContextError::InvalidProjection => "projection metadata is invalid".to_owned(),
            ContextError::SecretSourceDenied => "secret-class context may not enter model context".to_owned(),
            ContextError::ProjectionBindingMismatch =>
                "projection binding does not match the selected model/policy".to_owned(),
            ContextError::ProviderBinding(s) => {
                let mut out = "provider/model binding is invalid: ".to_owned();
                out.append(s.as_str());
                out
            },
        }
    }
}

/// The identity of a source.
#[derive(Clone, Copy, Debug, PartialEq, Eq, PartialOrd, Ord, Hash, Structural)]
pub struct ContextSourceId {
    pub value: u128,
}

impl ContextSourceId {
    /// A fresh random identity.
    pub fn new() -> (r: ContextSourceId)
        ensures
            r.value & 0xF000_C000_0000_0000_0000 == 0x4000_8000_0000_0000_0000,
    {
        ContextSourceId { value: random_uuid() }
    }

    /// The identity with the given bits.
    pub fn from_uuid(value: u128) -> (r: ContextSourceId)
        ensures
            r.value == value,
    {
        ContextSourceId { value }
    }

    /// The hyphenated text.
    pub fn to_text(&self) -> (r: String)
        ensures
            r@ == uuid_text(self.value),
    {
        uuid_to_text(self.value)
    }
}

impl Default for ContextSourceId {
    fn default() -> (r: ContextSourceId)
        ensures
            r.value & 0xF000_C000_0000_0000_0000 == 0x4000_8000_0000_0000_0000,
    {
        ContextSourceId::new()
    }
}

/// The identity of a projection.
#[derive(Clone, Copy, Debug, PartialEq, Eq, PartialOrd, Ord, Hash, Structural)]
pub struct ProjectionId {
    pub value: u128,
}

impl ProjectionId {
    /// A fresh random identity.
    pub fn new() -> (r: ProjectionId)
        ensures
            r.value & 0xF000_C000_0000_0000_0000 == 0x4000_8000_0000_0000_0000,
    {
        ProjectionId { value: random_uuid() }
    }

    /// The identity with the given bits.
    pub fn from_uuid(value: u128) -> (r: ProjectionId)
        ensures
            r.value == value,
    {
        ProjectionId { value }
    }

    /// The hyphenated text.
    pub fn to_text(&self) -> (r: String)
        ensures
            r@ == uuid_text(self.value),
    {
        uuid_to_text(self.value)
    }
}

impl Default for ProjectionId {
    fn default() -> (r: ProjectionId)
        ensures
            r.value & 0xF000_C000_0000_0000_0000 == 0x4000_8000_0000_0000_0000,
    {
        ProjectionId::new()
    }
}

/// The name of a compartment: plain segments with single slashes between them.
pub open spec fn compartment_ok(s: Seq<char>) -> bool {
    byte_len(s) <= 256 && trimmed(s) && segments_ok(s)
}

fn is_compartment(s: &str) -> (r: bool)
    ensures
        r == compartment_ok(s@),
{
    str_byte_len(s) <= 256 && is_trimmed(s) && has_plain_segments(s)
}

/// A compartment of a workspace.
#[derive(Debug, PartialEq, Eq, PartialOrd, Ord, Hash)]
pub struct CompartmentId {
    value: String,
}

impl View for CompartmentId {
    type V = Seq<char>;

    closed spec fn view(&self) -> Seq<char> {
        self.value@
    }
}

impl Clone for CompartmentId {
    fn clone(&self) -> (r: CompartmentId)
        ensures
            r@ == self@,
    {
        CompartmentId { value: self.value.clone() }
    }
}

impl CompartmentId {
    /// Checks and takes the text.
    pub fn parse(value: String) -> (r: Result<CompartmentId, ContextError>)
        ensures
            match r {
                Ok(v) => compartment_ok(value@) && v@ == value@,
                Err(e) => !(compartment_ok(value@)) && e == ContextError::InvalidCompartment,
            },
    {
        if !is_compartment(value.as_str()) {
            return Err(ContextError::InvalidCompartment);
        }
        Ok(CompartmentId { value })
    }

    /// The text.
    pub fn as_str(&self) -> (r: &str)
        ensures
            r@ == self@,
    {
        self.value.as_str()
    }
}

/// The task that a projection is for.
#[derive(Debug, PartialEq, Eq, PartialOrd, Ord, Hash)]
pub struct ProjectionTaskKey {
    value: String,
}

impl View for ProjectionTaskKey {
    type V = Seq<char>;

    closed spec fn view(&self) -> Seq<char> {
        self.value@
    }
}

impl Clone for ProjectionTaskKey {
    fn clone(&self) -> (r: ProjectionTaskKey)
        ensures
            r@ == self@,
    {
        ProjectionTaskKey { value: self.value.clone() }
    }
}

impl ProjectionTaskKey {
    /// Checks and takes the text.
    pub fn parse(value: String) -> (r: Result<ProjectionTaskKey, ContextError>)
        ensures
            match r {
                Ok(v) => plain_text(value@, 128) && v@ == value@,
                Err(e) => !(plain_text(value@, 128)) && e == ContextError::InvalidTaskKey,
            },
    {
        if !is_plain_text(value.as_str(), 128) {
            return Err(ContextError::InvalidTaskKey);
        }
        Ok(ProjectionTaskKey { value })
    }

    /// The text.
    pub fn as_str(&self) -> (r: &str)
        ensures
            r@ == self@,
    {
        self.value.as_str()
    }
}

/// The digest of context: 64 lowercase hexadecimal digits.
#[derive(Debug, PartialEq, Eq, PartialOrd, Ord, Hash)]
pub struct ContextDigest {
    value: String,
}

impl View for ContextDigest {
    type V = Seq<char>;

    closed spec fn view(&self) -> Seq<char> {
        self.value@
    }
}

impl Clone for ContextDigest {
    fn clone(&self) -> (r: ContextDigest)
        ensures
            r@ == self@,
    {
        ContextDigest { value: self.value.clone() }
    }
}

impl ContextDigest {
    /// The digest of bytes.
    pub fn from_bytes(bytes: &[u8]) -> (r: ContextDigest)
        ensures
            r@ == sha256_hex_text(bytes@),
    {
        ContextDigest { value: sha256_hex(bytes) }
    }

    /// The digest of a text.
    pub fn from_text(text: &str) -> (r: ContextDigest)
        ensures
            r@ == text_digest(text@),
    {
        ContextDigest { value: sha256_hex_str(text) }
    }

    /// Checks and takes the text.
    pub fn parse(value: String) -> (r: Result<ContextDigest, ContextError>)
        ensures
            match r {
                Ok(d) => is_digest(value@) && d@ == value@,
                Err(e) => !is_digest(value@) && e == ContextError::InvalidDigest,
            },
    {
        if !digest_shaped(value.as_str()) {
            return Err(ContextError::InvalidDigest);
        }
        Ok(ContextDigest { value })
    }

    /// The text.
    pub fn as_str(&self) -> (r: &str)
        ensures
            r@ == self@,
    {
        self.value.as_str()
    }

    /// Whether both are the same digest.
    pub fn same(&self, other: &ContextDigest) -> (r: bool)
        ensures
            r == (self@ == other@),
    {
        str_eq(self.value.as_str(), other.value.as_str())
    }
}

/// Where a source comes from.
#[derive(Clone, Copy, Debug, PartialEq, Eq, PartialOrd, Ord, Hash, Structural)]
pub enum SourceProvenanceKind {
    UserMessage,
    File,
    ToolResult,
    Skill,
    Artifact,
    Generated,
}

impl SourceProvenanceKind {
    /// The name on the wire.
    pub open spec fn name(self) -> Seq<char> {
        match self {
            SourceProvenanceKind::UserMessage => "user_message"@,
            SourceProvenanceKind::File => "file"@,
            SourceProvenanceKind::ToolResult => "tool_result"@,
            SourceProvenanceKind::Skill => "skill"@,
            SourceProvenanceKind::Artifact => "artifact"@,
            SourceProvenanceKind::Generated => "generated"@,
        }
    }

    /// The name on the wire.
    pub fn as_str(self) -> (r: &'static str)
        ensures
            r@ == self.name(),
    {
        match self {
            SourceProvenanceKind::UserMessage => "user_message",
            SourceProvenanceKind::File => "file",
            SourceProvenanceKind::ToolResult => "tool_result",
            SourceProvenanceKind::Skill => "skill",
            SourceProvenanceKind::Artifact => "artifact",
            SourceProvenanceKind::Generated => "generated",
        }
    }

    /// The value with the given name.
    pub fn parse(value: &str) -> (r: Option<SourceProvenanceKind>)
        ensures
            match r {
                Some(v) => v.name() == value@,
                None => (forall|v: SourceProvenanceKind| #[trigger] v.name() != value@),
            },
    {
        let r = if str_eq(value, "user_message") {
            Some(SourceProvenanceKind::UserMessage)
        } else if str_eq(value, "file") {
            Some(SourceProvenanceKind::File)
        } else if str_eq(value, "tool_result") {
            Some(SourceProvenanceKind::ToolResult)
        } else if str_eq(value, "skill") {
            Some(SourceProvenanceKind::Skill)
        } else if str_eq(value, "artifact") {
            Some(SourceProvenanceKind::Artifact)
        } else if str_eq(value, "generated") {
            Some(SourceProvenanceKind::Generated)
        } else {
            None
        };
        r
    }
}

/// No two values share a name.
pub proof fn source_provenance_kind_names_differ(a: SourceProvenanceKind, b: SourceProvenanceKind)
    requires
        a.name() == b.name(),
    ensures
        a == b,
{
    reveal_strlit("user_message");
    reveal_strlit("file");
    reveal_strlit("tool_result");
    reveal_strlit("skill");
    reveal_strlit("artifact");
    reveal_strlit("generated");
    assert("user_message"@.len() == 12);
    assert("file"@.len() == 4);
    assert("tool_result"@.len() == 11);
    assert("skill"@.len() == 5);
    assert("artifact"@.len() == 8);
    assert("generated"@.len() == 9);
}

/// The origin of a source.
#[derive(Debug, PartialEq, Eq)]
pub struct SourceProvenance {
    kind: SourceProvenanceKind,
    reference: String,
}

/// The model of a `SourceProvenance`.
pub struct ProvenanceView {
    pub kind: SourceProvenanceKind,
    pub reference: Seq<char>,
}

impl View for SourceProvenance {
    type V = ProvenanceView;

    closed spec fn view(&self) -> ProvenanceView {
        ProvenanceView {
            kind: self.kind,
            reference: self.reference@,
        }
    }
}

impl Clone for SourceProvenance {
    fn clone(&self) -> (r: SourceProvenance)
        ensures
            r@ == self@,
    {
        SourceProvenance {
            kind: self.kind,
            reference: self.reference.clone(),
        }
    }
}

impl SourceProvenance {
    /// Checks and takes the parts.
    pub fn new(kind: SourceProvenanceKind, reference: String) -> (r: Result<
        SourceProvenance,
        ContextError,
    >)
        ensures
            match r {
                Ok(p) => plain_text(reference@, 4096) && p@ == (ProvenanceView {
                    kind,
                    reference: reference@,
                }),
                Err(e) => !plain_text(reference@, 4096) && e == ContextError::InvalidProvenance,
            },
    {
        if !is_plain_text(reference.as_str(), 4096) {
            return Err(ContextError::InvalidProvenance);
        }
        Ok(SourceProvenance { kind, reference })
    }

    /// The kind of origin.
    pub fn kind(&self) -> (r: SourceProvenanceKind)
        ensures
            r == self@.kind,
    {
        self.kind
    }

    /// What names the origin.
    pub fn reference(&self) -> (r: &str)
        ensures
            r@ == self@.reference,
    {
        self.reference.as_str()
    }
}

/// The name of a class of data.
pub open spec fn class_name(value: DataClass) -> Seq<char> {
    match value {
        DataClass::Public => "public"@,
        DataClass::Workspace => "workspace"@,
        DataClass::Sensitive => "sensitive"@,
        DataClass::Secret => "secret"@,
    }
}

/// The name of a class of data.
pub fn data_class_str(value: DataClass) -> (r: &'static str)
    ensures
        r@ == class_name(value),
{
    match value {
        DataClass::Public => "public",
        DataClass::Workspace => "workspace",
        DataClass::Sensitive => "sensitive",
        DataClass::Secret => "secret",
    }
}

/// The class of data with the given name.
pub fn parse_data_class(value: &str) -> (r: Option<DataClass>)
    ensures
        match r {
            Some(c) => class_name(c) == value@,
            None => forall|c: DataClass| #[trigger] class_name(c) != value@,
        },
{
    if str_eq(value, "public") {
        Some(DataClass::Public)
    } else if str_eq(value, "workspace") {
        Some(DataClass::Workspace)
    } else if str_eq(value, "sensitive") {
        Some(DataClass::Sensitive)
    } else if str_eq(value, "secret") {
        Some(DataClass::Secret)
    } else {
        None
    }
}

/// No two classes share a name.
pub proof fn class_names_differ(a: DataClass, b: DataClass)
    requires
        class_name(a) == class_name(b),
    ensures
        a == b,
{
    reveal_strlit("public");
    reveal_strlit("workspace");
    reveal_strlit("sensitive");
    reveal_strlit("secret");
    assert("public"@.len() == 6);
    assert("workspace"@.len() == 9);
    assert("sensitive"@.len() == 9);
    assert("secret"@.len() == 6);
    assert("public"@[0] != "secret"@[0]);
    assert("workspace"@[0] != "sensitive"@[0]);
}

/// The more sensitive of two classes.
pub open spec fn stricter(left: DataClass, right: DataClass) -> DataClass {
    if left.rank() >= right.rank() {
        left
    } else {
        right
    }
}

fn data_class_rank(value: DataClass) -> (r: u8)
    ensures
        r == value.rank(),
{
    match value {
        DataClass::Public => 0,
        DataClass::Workspace => 1,
        DataClass::Sensitive => 2,
        DataClass::Secret => 3,
    }
}

/// The more sensitive of two classes.
pub fn most_restrictive(left: DataClass, right: DataClass) -> (r: DataClass)
    ensures
        r == stricter(left, right),
{
    if data_class_rank(left) >= data_class_rank(right) {
        left
    } else {
        right
    }
}

/// Mixing classes is commutative, associative and idempotent, and never less
/// sensitive than what is mixed.
pub proof fn mixing_never_declassifies(a: DataClass, b: DataClass, c: DataClass)
    ensures
        stricter(a, b) == stricter(b, a),
        stricter(a, stricter(b, c)) == stricter(stricter(a, b), c),
        stricter(a, a) == a,
        a.rank() <= stricter(a, b).rank(),
        b.rank() <= stricter(a, b).rank(),
{
}

/// A source of context.
#[derive(Clone, Debug, PartialEq, Eq)]
pub struct ContextSource {
    id: ContextSourceId,
    workspace_id: WorkspaceId,
    classification: DataClass,
    compartments: TextSet,
    provenance: SourceProvenance,
    content: CanonicalValue,
    digest: ContextDigest,
    created_by: PrincipalId,
    created_at: TimestampMillis,
}

/// The model of a `ContextSource`.
pub struct SourceView {
    pub id: ContextSourceId,
    pub workspace_id: WorkspaceId,
    pub classification: DataClass,
    pub compartments: Seq<Seq<char>>,
    pub provenance: ProvenanceView,
    pub content: JsonView,
    pub digest: Seq<char>,
    pub created_by: PrincipalView,
    pub created_at: TimestampMillis,
}

impl View for ContextSource {
    type V = SourceView;

    closed spec fn view(&self) -> SourceView {
        SourceView {
            id: self.id,
            workspace_id: self.workspace_id,
            classification: self.classification,
            compartments: self.compartments@,
            provenance: self.provenance@,
            content: self.content@,
            digest: self.digest@,
            created_by: self.created_by@,
            created_at: self.created_at,
        }
    }
}

/// The JSON values of some texts.
pub open spec fn text_items(t: Seq<Seq<char>>) -> Seq<JsonView> {
    t.map_values(|x: Seq<char>| JsonView::Str(x))
}

/// The JSON array of a set of texts.
pub fn text_set_json(s: &TextSet) -> (r: Json)
    ensures
        r@ == JsonView::Array(text_items(s@)),
{
    let mut v: Vec<Json> = Vec::new();
    let mut i: usize = 0;
    while i < s.len()
        invariant
            i <= s@.len(),
            v@.len() == i,
            forall|k: int| 0 <= k < i ==> (#[trigger] v@[k])@ == JsonView::Str(s@[k]),
        decreases s@.len() - i,
    {
        v.push(string(s.at(i)));
        i += 1;
    }
    proof {
        assert(item_models(v@) =~= text_items(s@));
    }
    array(v)
}

impl SourceView {
    /// The JSON value whose text is digested: all but the digest.
    pub open spec fn json(self) -> JsonView {
        JsonView::Object(
            no_fields().push(("source_id"@, JsonView::Str(uuid_text(self.id.value)))).push(
                ("workspace_id"@, JsonView::Str(uuid_text(self.workspace_id.value))),
            ).push(("classification"@, JsonView::Str(class_name(self.classification)))).push(
                ("compartments"@, JsonView::Array(text_items(self.compartments))),
            ).push(("provenance_kind"@, JsonView::Str(self.provenance.kind.name()))).push(
                ("provenance_reference"@, JsonView::Str(self.provenance.reference)),
            ).push(("content"@, self.content)).push(
                ("created_by_provider"@, JsonView::Str(self.created_by.provider)),
            ).push(("created_by_subject"@, JsonView::Str(self.created_by.subject))).push(
                ("created_at"@, JsonView::Int(self.created_at.value as int)),
            ),
        )
    }

    /// The same source with the digest of its content.
    pub open spec fn digested(self) -> SourceView {
        SourceView { digest: text_digest(plain(self.json())), ..self }
    }
}

fn source_digest(
    id: ContextSourceId,
    workspace_id: WorkspaceId,
    classification: DataClass,
    compartments: &TextSet,
    provenance: &SourceProvenance,
    content: &CanonicalValue,
    created_by: &PrincipalId,
    created_at: TimestampMillis,
) -> (r: ContextDigest)
    ensures
        r@ == (SourceView {
            id,
            workspace_id,
            classification,
            compartments: compartments@,
            provenance: provenance@,
            content: content@,
            digest: Seq::empty(),
            created_by: created_by@,
            created_at,
        }).digested().digest,
{
    let mut m = no_members();
    put(&mut m, "source_id", Json::Str(id.to_text()));
    put(&mut m, "workspace_id", Json::Str(workspace_id.to_text()));
    put(&mut m, "classification", string(data_class_str(classification)));
    put(&mut m, "compartments", text_set_json(compartments));
    put(&mut m, "provenance_kind", string(provenance.kind.as_str()));
    put(&mut m, "provenance_reference", string(provenance.reference()));
    put(&mut m, "content", content.to_json());
    put(&mut m, "created_by_provider", string(created_by.provider()));
    put(&mut m, "created_by_subject", string(created_by.subject()));
    put(&mut m, "created_at", Json::UInt(created_at.value));
    let text = object(m).to_text();
    ContextDigest::from_text(text.as_str())
}

fn compartment_texts(v: &Vec<CompartmentId>) -> (r: Vec<String>)
    ensures
        texts(r@) == views(v@),
{
    let mut out: Vec<String> = Vec::new();
    let mut i: usize = 0;
    while i < v.len()
        invariant
            i <= v@.len(),
            out@.len() == i,
            forall|k: int| 0 <= k < i ==> (#[trigger] out@[k])@ == v@[k]@,
        decreases v@.len() - i,
    {
        out.push(v[i].as_str().to_owned());
        i += 1;
    }
    proof {
        assert(texts(out@) =~= views(v@));
    }
    out
}

/// Some lists of texts, one after the other, from position `i`.
pub open spec fn all_texts(s: Seq<Seq<Seq<char>>>, i: int) -> Seq<Seq<char>>
    decreases s.len() - i,
{
    if i < 0 || i >= s.len() {
        Seq::empty()
    } else {
        s[i] + all_texts(s, i + 1)
    }
}

/// The most sensitive of `c` and the classes from position `i` on.
pub open spec fn strictest(s: Seq<DataClass>, i: int, c: DataClass) -> DataClass
    decreases s.len() - i,
{
    if i < 0 || i >= s.len() {
        c
    } else {
        strictest(s, i + 1, stricter(c, s[i]))
    }
}

/// The classes of some sources.
pub open spec fn classes(s: Seq<SourceView>) -> Seq<DataClass> {
    s.map_values(|v: SourceView| v.classification)
}

/// The compartments of some sources.
pub open spec fn compartments(s: Seq<SourceView>) -> Seq<Seq<Seq<char>>> {
    s.map_values(|v: SourceView| v.compartments)
}

/// Every source belongs to the workspace.
pub open spec fn all_in_workspace(s: Seq<SourceView>, workspace_id: WorkspaceId) -> bool {
    forall|i: int| 0 <= i < s.len() ==> (#[trigger] s[i]).workspace_id == workspace_id
}

/// What is derived from some sources: as sensitive as the most sensitive of
/// them, and in all of their compartments.
pub open spec fn derivation(
    id: ContextSourceId,
    workspace_id: WorkspaceId,
    reference: Seq<char>,
    inputs: Seq<SourceView>,
    content: JsonView,
    created_by: PrincipalView,
    created_at: TimestampMillis,
) -> Result<SourceView, ContextError> {
    if inputs.len() == 0 || !all_in_workspace(inputs, workspace_id) {
        Err(ContextError::InvalidDerivation)
    } else if !plain_text(reference, 4096) {
        Err(ContextError::InvalidProvenance)
    } else {
        Ok(
            (SourceView {
                id,
                workspace_id,
                classification: strictest(classes(inputs), 1, inputs[0].classification),
                compartments: text_set(all_texts(compartments(inputs), 0)),
                provenance: ProvenanceView { kind: SourceProvenanceKind::Generated, reference },
                content,
                digest: Seq::empty(),
                created_by,
                created_at,
            }).digested(),
        )
    }
}

/// The model of a source, or why there is none.
pub open spec fn source_view(r: Result<ContextSource, ContextError>) -> Result<
    SourceView,
    ContextError,
> {
    match r {
        Ok(s) => Ok(s@),
        Err(e) => Err(e),
    }
}

/// Adds a set of texts to a list.
fn extend(out: &mut Vec<String>, s: &TextSet)
    ensures
        texts(final(out)@) == texts(old(out)@) + s@,
{
    let ghost before = texts(out@);
    let mut i: usize = 0;
    proof {
        assert(before + s@.take(0) =~= before);
    }
    while i < s.len()
        invariant
            i <= s@.len(),
            texts(out@) == before + s@.take(i as int),
        decreases s@.len() - i,
    {
        let ghost mid = texts(out@);
        out.push(s.at(i).to_owned());
        proof {
            assert(texts(out@) =~= mid.push(s@[i as int]));
            assert(s@.take(i + 1) =~= s@.take(i as int).push(s@[i as int]));
            assert(mid.push(s@[i as int]) =~= before + s@.take(i + 1));
        }
        i += 1;
    }
    proof {
        assert(s@.take(i as int) =~= s@);
    }
}

impl ContextSource {
    /// A source, with the digest of its content.
    pub fn new(
        id: ContextSourceId,
        workspace_id: WorkspaceId,
        classification: DataClass,
        compartments: Vec<CompartmentId>,
        provenance: SourceProvenance,
        content: CanonicalValue,
        created_by: PrincipalId,
        created_at: TimestampMillis,
    ) -> (r: Result<ContextSource, ContextError>)
        ensures
            r matches Ok(s) && s@ == (SourceView {
                id,
                workspace_id,
                classification,
                compartments: text_set(views(compartments@)),
                provenance: provenance@,
                content: content@,
                digest: Seq::empty(),
                created_by: created_by@,
                created_at,
            }).digested(),
    {
        let set = TextSet::from_list(compartment_texts(&compartments));
        Ok(
            ContextSource::assemble(
                id,
                workspace_id,
                classification,
                set,
                provenance,
                content,
                created_by,
                created_at,
            ),
        )
    }

    /// A source whose compartments are a set already, with the digest of its
    /// content.
    pub fn assemble(
        id: ContextSourceId,
        workspace_id: WorkspaceId,
        classification: DataClass,
        compartments: TextSet,
        provenance: SourceProvenance,
        content: CanonicalValue,
        created_by: PrincipalId,
        created_at: TimestampMillis,
    ) -> (r: ContextSource)
        ensures
            r@ == (SourceView {
                id,
                workspace_id,
                classification,
                compartments: compartments@,
                provenance: provenance@,
                content: content@,
                digest: Seq::empty(),
                created_by: created_by@,
                created_at,
            }).digested(),
    {
        let digest = source_digest(
            id,
            workspace_id,
            classification,
            &compartments,
            &provenance,
            &content,
            &created_by,
            created_at,
        );
        ContextSource {
            id,
            workspace_id,
            classification,
            compartments,
            provenance,
            content,
            digest,
            created_by,
            created_at,
        }
    }

    /// The source with the given parts, as they were stored, if they still
    /// have the digest that was stored with them.
    pub fn from_stored_parts(
        id: ContextSourceId,
        workspace_id: WorkspaceId,
        classification: DataClass,
        compartments: Vec<CompartmentId>,
        provenance: SourceProvenance,
        content: CanonicalValue,
        created_by: PrincipalId,
        created_at: TimestampMillis,
        expected_digest: ContextDigest,
    ) -> (r: Result<ContextSource, ContextError>)
        ensures
            ({
                let v = (SourceView {
                    id,
                    workspace_id,
                    classification,
                    compartments: text_set(views(compartments@)),
                    provenance: provenance@,
                    content: content@,
                    digest: Seq::empty(),
                    created_by: created_by@,
                    created_at,
                }).digested();
                match r {
                    Ok(s) => v.digest == expected_digest@ && s@ == v,
                    Err(e) => v.digest != expected_digest@ && e == ContextError::DigestMismatch,
                }
            }),
    {
        let set = TextSet::from_list(compartment_texts(&compartments));
        let source = ContextSource::assemble(
            id,
            workspace_id,
            classification,
            set,
            provenance,
            content,
            created_by,
            created_at,
        );
        if !source.digest.same(&expected_digest) {
            return Err(ContextError::DigestMismatch);
        }
        Ok(source)
    }

    /// A source that is derived from others.
    pub fn derived(
        id: ContextSourceId,
        workspace_id: WorkspaceId,
        provenance_reference: String,
        inputs: &[ContextSource],
        content: CanonicalValue,
        created_by: PrincipalId,
        created_at: TimestampMillis,
    ) -> (r: Result<ContextSource, ContextError>)
        ensures
            source_view(r) == derivation(
                id,
                workspace_id,
                provenance_reference@,
                views(inputs@),
                content@,
                created_by@,
                created_at,
            ),
    {
        let ghost all = views(inputs@);
        if inputs.len() == 0 {
            return Err(ContextError::InvalidDerivation);
        }
        let mut i: usize = 0;
        while i < inputs.len()
            invariant
                i <= inputs@.len(),
                all == views(inputs@),
                forall|k: int| 0 <= k < i ==> (#[trigger] all[k]).workspace_id == workspace_id,
            decreases inputs@.len() - i,
        {
            proof {
                assert(all[i as int] == inputs@[i as int]@);
            }
            if inputs[i].workspace_id != workspace_id {
                proof {
                    assert(all[i as int].workspace_id != workspace_id);
                }
                return Err(ContextError::InvalidDerivation);
            }
            i += 1;
        }
        let mut classification = inputs[0].classification;
        let mut list: Vec<String> = Vec::new();
        proof {
            assert(all[0] == inputs@[0]@);
            assert(texts(list@) =~= Seq::<Seq<char>>::empty());
            assert(stricter(classification, all[0].classification) == classification);
        }
        let mut k: usize = 0;
        while k < inputs.len()
            invariant
                k <= inputs@.len(),
                all == views(inputs@),
                all.len() > 0,
                strictest(classes(all), 1, all[0].classification) == strictest(
                    classes(all),
                    k as int,
                    classification,
                ),
                all_texts(compartments(all), 0) == texts(list@) + all_texts(
                    compartments(all),
                    k as int,
                ),
            decreases inputs@.len() - k,
        {
            proof {
                assert(all[k as int] == inputs@[k as int]@);
            }
            let ghost before = texts(list@);
            classification = most_restrictive(classification, inputs[k].classification);
            extend(&mut list, &inputs[k].compartments);
            proof {
                let lists = compartments(all);
                assert(lists[k as int] == all[k as int].compartments);
                assert(before + all_texts(lists, k as int) =~= texts(list@) + all_texts(
                    lists,
                    k + 1,
                ));
            }
            k += 1;
        }
        proof {
            assert(texts(list@) + all_texts(compartments(all), k as int) =~= texts(list@));
        }
        let provenance = match SourceProvenance::new(
            SourceProvenanceKind::Generated,
            provenance_reference,
        ) {
            Ok(p) => p,
            Err(e) => {
                return Err(e);
            },
        };
        Ok(
            ContextSource::assemble(
                id,
                workspace_id,
                classification,
                TextSet::from_list(list),
                provenance,
                content,
                created_by,
                created_at,
            ),
        )
    }

    /// The identity.
    pub fn id(&self) -> (r: ContextSourceId)
        ensures
            r == self@.id,
    {
        self.id
    }

    /// The workspace.
    pub fn workspace_id(&self) -> (r: WorkspaceId)
        ensures
            r == self@.workspace_id,
    {
        self.workspace_id
    }

    /// How sensitive it is.
    pub fn classification(&self) -> (r: DataClass)
        ensures
            r == self@.classification,
    {
        self.classification
    }

    /// The compartments that it is in.
    pub fn compartments(&self) -> (r: &TextSet)
        ensures
            r@ == self@.compartments,
    {
        &self.compartments
    }

    /// Where it comes from.
    pub fn provenance(&self) -> (r: &SourceProvenance)
        ensures
            r@ == self@.provenance,
    {
        &self.provenance
    }

    /// The content.
    pub fn content(&self) -> (r: &CanonicalValue)
        ensures
            r@ == self@.content,
    {
        &self.content
    }

    /// The digest of all of it.
    pub fn digest(&self) -> (r: &ContextDigest)
        ensures
            r@ == self@.digest,
    {
        &self.digest
    }

    /// Who made it.
    pub fn created_by(&self) -> (r: &PrincipalId)
        ensures
            r@ == self@.created_by,
    {
        &self.created_by
    }

    /// When it was made.
    pub fn created_at(&self) -> (r: TimestampMillis)
        ensures
            r == self@.created_at,
    {
        self.created_at
    }
}

/// What is derived is at least as sensitive as each input, and in each of its
/// compartments.
pub proof fn derivation_keeps_taint(
    id: ContextSourceId,
    workspace_id: WorkspaceId,
    reference: Seq<char>,
    inputs: Seq<SourceView>,
    content: JsonView,
    created_by: PrincipalView,
    created_at: TimestampMillis,
    i: int,
)
    requires
        0 <= i < inputs.len(),
    ensures
        derivation(
            id,
            workspace_id,
            reference,
            inputs,
            content,
            created_by,
            created_at,
        ) matches Ok(d) ==> {
            &&& inputs[i].classification.rank() <= d.classification.rank()
            &&& all_within(inputs[i].compartments, d.compartments)
        },
{
    let list = classes(inputs);
    strictest_bounds(list, 1, inputs[0].classification);
    assert(list[i] == inputs[i].classification);
    let lists = compartments(inputs);
    texts_reach(lists, 0, i);
    text_set_members(all_texts(lists, 0));
    assert(lists[i] == inputs[i].compartments);
}

/// The most sensitive class is at least as sensitive as each.
pub proof fn strictest_bounds(s: Seq<DataClass>, from: int, c: DataClass)
    requires
        0 <= from,
    ensures
        c.rank() <= strictest(s, from, c).rank(),
        forall|i: int|
            from <= i < s.len() ==> (#[trigger] s[i]).rank() <= strictest(s, from, c).rank(),
    decreases s.len() - from,
{
    if from < s.len() {
        strictest_bounds(s, from + 1, stricter(c, s[from]));
    }
}

/// The most sensitive class is one of those given.
pub proof fn strictest_is_one(s: Seq<DataClass>, from: int, c: DataClass)
    requires
        0 <= from,
    ensures
        strictest(s, from, c) == c || s.contains(strictest(s, from, c)),
    decreases s.len() - from,
{
    if from < s.len() {
        strictest_is_one(s, from + 1, stricter(c, s[from]));
        assert(s.contains(s[from]));
    }
}

/// Each of all the texts stands in one of the lists.
pub proof fn texts_come_from_one(s: Seq<Seq<Seq<char>>>, from: int, t: Seq<char>) -> (i: int)
    requires
        0 <= from,
        all_texts(s, from).contains(t),
    ensures
        from <= i < s.len(),
        s[i].contains(t),
    decreases s.len() - from,
{
    let all = all_texts(s, from);
    let k = choose|k: int| 0 <= k < all.len() && all[k] == t;
    if k < s[from].len() {
        assert(s[from][k] == t);
        from
    } else {
        assert(all_texts(s, from + 1)[k - s[from].len()] == t);
        texts_come_from_one(s, from + 1, t)
    }
}

/// Every list of texts is within all of them.
pub proof fn texts_reach(s: Seq<Seq<Seq<char>>>, from: int, i: int)
    requires
        0 <= from <= i < s.len(),
    ensures
        all_within(s[i], all_texts(s, from)),
    decreases i - from,
{
    let here = s[from];
    let rest = all_texts(s, from + 1);
    let all = all_texts(s, from);
    if from < i {
        texts_reach(s, from + 1, i);
    }
    assert forall|k: int| 0 <= k < s[i].len() implies all.contains(#[trigger] s[i][k]) by {
        if from == i {
            assert(all[k] == here[k]);
        } else {
            assert(rest.contains(s[i][k]));
            let m = choose|m: int| 0 <= m < rest.len() && rest[m] == s[i][k];
            assert(all[here.len() + m] == s[i][k]);
        }
    }
}

/// Which context a profile of a model may see.
#[derive(Clone, Debug, PartialEq, Eq)]
pub struct ModelDataPolicy {
    workspace_id: WorkspaceId,
    model_profile_id: ModelProfileId,
    model_profile_revision: u64,
    model_trust_zone: ModelTrustZone,
    revision: u64,
    allowed_data_classes: Vec<DataClass>,
    allowed_compartments: TextSet,
    allow_uncompartmented: bool,
    created_at: TimestampMillis,
}

/// The model of a `ModelDataPolicy`.
pub struct PolicyView {
    pub workspace_id: WorkspaceId,
    pub model_profile_id: Seq<char>,
    pub model_profile_revision: u64,
    pub model_trust_zone: ModelTrustZone,
    pub revision: u64,
    pub allowed_data_classes: Set<DataClass>,
    pub allowed_compartments: Seq<Seq<char>>,
    pub allow_uncompartmented: bool,
    pub created_at: TimestampMillis,
}

impl View for ModelDataPolicy {
    type V = PolicyView;

    closed spec fn view(&self) -> PolicyView {
        PolicyView {
            workspace_id: self.workspace_id,
            model_profile_id: self.model_profile_id@,
            model_profile_revision: self.model_profile_revision,
            model_trust_zone: self.model_trust_zone,
            revision: self.revision,
            allowed_data_classes: class_set(self.allowed_data_classes@),
            allowed_compartments: self.allowed_compartments@,
            allow_uncompartmented: self.allow_uncompartmented,
            created_at: self.created_at,
        }
    }
}

impl PolicyView {
    /// The policy allows some class, none of them secret, and has revisions.
    pub open spec fn wf(self) -> bool {
        &&& self.model_profile_revision > 0
        &&& self.revision > 0
        &&& allowable(self.allowed_data_classes)
    }

    /// The policy is for this very profile, which is in use.
    pub open spec fn is_for(self, profile: ProfileView) -> bool {
        &&& profile.id == self.model_profile_id
        &&& profile.revision == self.model_profile_revision
        &&& profile.trust_zone == self.model_trust_zone
        &&& profile.enabled
    }

    /// Why content of a class and in some compartments is denied.
    pub open spec fn content_flaw(self, class: DataClass, compartments: Seq<Seq<char>>) -> Option<
        ContextErrorView,
    > {
        if class == DataClass::Secret || !self.allowed_data_classes.contains(class) {
            Some(ContextErrorView::DataClassDenied)
        } else if compartments.len() == 0 {
            if self.allow_uncompartmented {
                None
            } else {
                Some(ContextErrorView::CompartmentDenied)
            }
        } else if !all_within(compartments, self.allowed_compartments) {
            Some(ContextErrorView::CompartmentDenied)
        } else {
            None
        }
    }

    /// Why a source is denied to a profile.
    pub open spec fn source_flaw(self, profile: ProfileView, source: SourceView) -> Option<
        ContextErrorView,
    > {
        if !self.is_for(profile) {
            Some(ContextErrorView::ProfilePolicyMismatch)
        } else if source.workspace_id != self.workspace_id {
            Some(ContextErrorView::WorkspaceMismatch)
        } else {
            self.content_flaw(source.classification, source.compartments)
        }
    }
}

/// The model of a check.
pub open spec fn flaw_of(r: Result<(), ContextError>) -> Option<ContextErrorView> {
    match r {
        Ok(()) => None,
        Err(e) => Some(e@),
    }
}

impl ModelDataPolicy {
    /// Checks and takes the parts.
    pub fn new(
        workspace_id: WorkspaceId,
        model_profile_id: ModelProfileId,
        model_profile_revision: u64,
        model_trust_zone: ModelTrustZone,
        revision: u64,
        allowed_data_classes: Vec<DataClass>,
        allowed_compartments: Vec<CompartmentId>,
        allow_uncompartmented: bool,
        created_at: TimestampMillis,
    ) -> (r: Result<ModelDataPolicy, ContextError>)
        ensures
            ({
                let v = PolicyView {
                    workspace_id,
                    model_profile_id: model_profile_id@,
                    model_profile_revision,
                    model_trust_zone,
                    revision,
                    allowed_data_classes: class_set(allowed_data_classes@),
                    allowed_compartments: text_set(views(allowed_compartments@)),
                    allow_uncompartmented,
                    created_at,
                };
                match r {
                    Ok(p) => v.wf() && p@ == v,
                    Err(e) => !v.wf() && e == ContextError::InvalidPolicy,
                }
            }),
    {
        if model_profile_revision == 0 || revision == 0 || allowed_data_classes.len() == 0
            || has_class(&allowed_data_classes, DataClass::Secret) {
            return Err(ContextError::InvalidPolicy);
        }
        proof {
            assert(class_set(allowed_data_classes@).contains(allowed_data_classes@[0]));
        }
        Ok(
            ModelDataPolicy {
                workspace_id,
                model_profile_id,
                model_profile_revision,
                model_trust_zone,
                revision,
                allowed_data_classes: ordered_classes(&allowed_data_classes),
                allowed_compartments: TextSet::from_list(compartment_texts(&allowed_compartments)),
                allow_uncompartmented,
                created_at,
            },
        )
    }

    /// The workspace.
    pub fn workspace_id(&self) -> (r: WorkspaceId)
        ensures
            r == self@.workspace_id,
    {
        self.workspace_id
    }

    /// The profile.
    pub fn model_profile_id(&self) -> (r: &ModelProfileId)
        ensures
            r@ == self@.model_profile_id,
    {
        &self.model_profile_id
    }

    /// The revision of the profile.
    pub fn model_profile_revision(&self) -> (r: u64)
        ensures
            r == self@.model_profile_revision,
    {
        self.model_profile_revision
    }

    /// The trust zone of the profile.
    pub fn model_trust_zone(&self) -> (r: ModelTrustZone)
        ensures
            r == self@.model_trust_zone,
    {
        self.model_trust_zone
    }

    /// The revision of the policy.
    pub fn revision(&self) -> (r: u64)
        ensures
            r == self@.revision,
    {
        self.revision
    }

    /// The compartments that are allowed.
    pub fn allowed_compartments(&self) -> (r: &TextSet)
        ensures
            r@ == self@.allowed_compartments,
    {
        &self.allowed_compartments
    }

    /// Whether sources outside any compartment are allowed.
    pub fn allow_uncompartmented(&self) -> (r: bool)
        ensures
            r == self@.allow_uncompartmented,
    {
        self.allow_uncompartmented
    }

    /// When it was made.
    pub fn created_at(&self) -> (r: TimestampMillis)
        ensures
            r == self@.created_at,
    {
        self.created_at
    }

    /// The classes that are allowed.
    pub fn allowed_data_classes(&self) -> (r: &Vec<DataClass>)
        ensures
            class_set(r@) == self@.allowed_data_classes,
    {
        &self.allowed_data_classes
    }

    /// Checks that the policy is for this very profile.
    pub fn validate_profile(&self, profile: &ModelProfile) -> (r: Result<(), ContextError>)
        ensures
            match r {
                Ok(()) => self@.is_for(profile@),
                Err(e) => !self@.is_for(profile@) && e == ContextError::ProfilePolicyMismatch,
            },
    {
        if !str_eq(profile.id().as_str(), self.model_profile_id.as_str()) || profile.revision()
            != self.model_profile_revision || profile.trust_zone() != self.model_trust_zone
            || !profile.enabled() {
            return Err(ContextError::ProfilePolicyMismatch);
        }
        Ok(())
    }

    /// Checks content of a class and in some compartments.
    fn allows_content(&self, class: DataClass, compartments: &TextSet) -> (r: Result<
        (),
        ContextError,
    >)
        ensures
            flaw_of(r) == self@.content_flaw(class, compartments@),
    {
        if class == DataClass::Secret || !has_class(&self.allowed_data_classes, class) {
            return Err(ContextError::DataClassDenied);
        }
        if compartments.len() == 0 {
            if !self.allow_uncompartmented {
                return Err(ContextError::CompartmentDenied);
            }
        } else if !compartments.is_subset(&self.allowed_compartments) {
            return Err(ContextError::CompartmentDenied);
        }
        Ok(())
    }

    /// Checks that a source may be shown to a profile.
    pub fn allows_source(&self, profile: &ModelProfile, source: &ContextSource) -> (r: Result<
        (),
        ContextError,
    >)
        ensures
            flaw_of(r) == self@.source_flaw(profile@, source@),
    {
        match self.validate_profile(profile) {
            Ok(()) => {},
            Err(e) => {
                return Err(e);
            },
        }
        if source.workspace_id != self.workspace_id {
            return Err(ContextError::WorkspaceMismatch);
        }
        self.allows_content(source.classification, &source.compartments)
    }
}

/// No policy shows secrets, nor a source of another workspace, nor one with a
/// compartment that is not allowed.
pub proof fn shown_sources_are_allowed(p: PolicyView, profile: ProfileView, source: SourceView)
    requires
        p.source_flaw(profile, source) is None,
    ensures
        source.classification != DataClass::Secret,
        p.allowed_data_classes.contains(source.classification),
        source.workspace_id == p.workspace_id,
        all_within(source.compartments, p.allowed_compartments),
{
}

pub(crate) proof fn text_items_are_told_apart(a: Seq<Seq<char>>, b: Seq<Seq<char>>)
    requires
        text_items(a) == text_items(b),
    ensures
        a == b,
{
    let x = text_items(a);
    let y = text_items(b);
    assert(x.len() == a.len() && y.len() == b.len());
    assert forall|i: int| 0 <= i < a.len() implies #[trigger] a[i] == b[i] by {
        assert(x[i] == y[i]);
        assert(x[i] == JsonView::Str(a[i]));
        assert(y[i] == JsonView::Str(b[i]));
    }
    assert(a =~= b);
}

/// The value that is digested holds all of a source but the digest: its class,
/// its compartments, where it comes from and what it says among them.
pub proof fn digested_values_tell_sources_apart(a: SourceView, b: SourceView)
    requires
        a.json() == b.json(),
    ensures
        b == (SourceView { digest: b.digest, ..a }),
{
    let x = a.json()->Object_0;
    let y = b.json()->Object_0;
    assert(x[0].1 == y[0].1);
    assert(x[1].1 == y[1].1);
    assert(x[2].1 == y[2].1);
    assert(x[3].1 == y[3].1);
    assert(x[4].1 == y[4].1);
    assert(x[5].1 == y[5].1);
    assert(x[6].1 == y[6].1);
    assert(x[7].1 == y[7].1);
    assert(x[8].1 == y[8].1);
    assert(x[9].1 == y[9].1);
    uuid_text_is_injective(a.id.value, b.id.value);
    uuid_text_is_injective(a.workspace_id.value, b.workspace_id.value);
    class_names_differ(a.classification, b.classification);
    text_items_are_told_apart(a.compartments, b.compartments);
    source_provenance_kind_names_differ(a.provenance.kind, b.provenance.kind);
}

/// A source may be shown to a profile exactly if the policy is for that very
/// revision and zone of the profile, which is in use, the source is of the
/// policy's workspace and of a class that is allowed and not secret, and each of
/// its compartments is allowed, or, without any, the policy admits that.
pub proof fn sources_are_shown_exactly_if_allowed(
    p: PolicyView,
    profile: ProfileView,
    source: SourceView,
)
    ensures
        p.source_flaw(profile, source) is None <==> {
            &&& profile.id == p.model_profile_id
            &&& profile.revision == p.model_profile_revision
            &&& profile.trust_zone == p.model_trust_zone
            &&& profile.enabled
            &&& source.workspace_id == p.workspace_id
            &&& source.classification != DataClass::Secret
            &&& p.allowed_data_classes.contains(source.classification)
            &&& source.compartments.len() == 0 ==> p.allow_uncompartmented
            &&& forall|i: int|
                0 <= i < source.compartments.len() ==> p.allowed_compartments.contains(
                    #[trigger] source.compartments[i],
                )
        },
{
}

/// What is derived says what it was derived as: it is of the workspace, was
/// generated, and holds the content, the author and the time that were given.
/// It is derived exactly if there are inputs, all of the workspace, and a plain
/// reference. Its class is that of one of its inputs, and each of its
/// compartments is one of theirs.
pub proof fn derivations_add_nothing(
    id: ContextSourceId,
    workspace_id: WorkspaceId,
    reference: Seq<char>,
    inputs: Seq<SourceView>,
    content: JsonView,
    created_by: PrincipalView,
    created_at: TimestampMillis,
)
    ensures
        ({
            let r = derivation(
                id,
                workspace_id,
                reference,
                inputs,
                content,
                created_by,
                created_at,
            );
            &&& r is Ok <==> inputs.len() > 0 && plain_text(reference, 4096) && forall|i: int|
                0 <= i < inputs.len() ==> (#[trigger] inputs[i]).workspace_id == workspace_id
            &&& r matches Ok(d) ==> {
                &&& d.id == id && d.workspace_id == workspace_id && d.content == content
                &&& d.created_by == created_by && d.created_at == created_at
                &&& d.provenance.kind == SourceProvenanceKind::Generated
                &&& d.provenance.reference == reference
                &&& exists|i: int|
                    0 <= i < inputs.len() && (#[trigger] inputs[i]).classification
                        == d.classification
                &&& forall|c: Seq<char>| #[trigger]
                    d.compartments.contains(c) ==> exists|i: int|
                        0 <= i < inputs.len() && (#[trigger] inputs[i]).compartments.contains(c)
            }
        }),
{
    if inputs.len() > 0 {
        let cs = classes(inputs);
        strictest_is_one(cs, 1, inputs[0].classification);
        let top = strictest(cs, 1, inputs[0].classification);
        if top == inputs[0].classification {
            assert(inputs[0].classification == top);
        } else {
            let k = choose|k: int| 0 <= k < cs.len() && cs[k] == top;
            assert(inputs[k].classification == top);
        }
        let lists = compartments(inputs);
        text_set_members(all_texts(lists, 0));
        assert forall|c: Seq<char>| #[trigger]
            text_set(all_texts(lists, 0)).contains(c) implies exists|i: int|
            0 <= i < inputs.len() && (#[trigger] inputs[i]).compartments.contains(c) by {
            assert(all_texts(lists, 0).contains(c));
            let i = texts_come_from_one(lists, 0, c);
            assert(inputs[i].compartments.contains(c));
        }
    }
}

} // verus!
