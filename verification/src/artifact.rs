//! What workers produce, and when a failed task may be tried again.

use crate::action::{ActionId, CanonicalValue, RunId};
use crate::approval::TimestampMillis;
use crate::context::{
    CompartmentId, ContextDigest, ContextSource, ContextSourceId, ProjectionId,
    ProvenanceView, SourceProvenance, SourceProvenanceKind, SourceView,
};
use crate::digest::sha256_hex_text;
use crate::egress::{DataClass, ProviderId};
use crate::identity::{PrincipalId, PrincipalView, WorkspaceId};
use crate::ids::{random_uuid, uuid_text, uuid_to_text};
use crate::json::{no_fields, JsonView};
use crate::lists::views;
use crate::model::ReasoningProfile;
use crate::orchestration::{OrchestrationId, TaskNodeId, TaskOutputKind};
use crate::ordered::TextSet;
use crate::provider::ModelProfileId;
use crate::sorting::{text_set, text_set_members};
use crate::text::{is_plain_text, plain_text, texts};
use crate::worker::WorkerAttemptId;
use vstd::prelude::*;
use vstd::utf8::encode_utf8;

verus! {

/// The most bytes of an artifact.
pub const MAX_ARTIFACT_BYTES: usize = 2097152;

/// The most bytes of a preview.
pub const MAX_ARTIFACT_PREVIEW_BYTES: usize = 4096;

/// The identity of an artifact.
#[derive(Clone, Copy, Debug, PartialEq, Eq, PartialOrd, Ord, Hash, Structural)]
pub struct ArtifactId {
    pub value: u128,
}

impl ArtifactId {
    /// A fresh random identity.
    pub fn new() -> (r: ArtifactId)
        ensures
            r.value & 0xF000_C000_0000_0000_0000 == 0x4000_8000_0000_0000_0000,
    {
        ArtifactId { value: random_uuid() }
    }

    /// The identity with the given bits.
    pub fn from_uuid(value: u128) -> (r: ArtifactId)
        ensures
            r.value == value,
    {
        ArtifactId { value }
    }

    /// The hyphenated text.
    pub fn to_text(&self) -> (r: String)
        ensures
            r@ == uuid_text(self.value),
    {
        uuid_to_text(self.value)
    }
}

impl Default for ArtifactId {
    fn default() -> (r: ArtifactId)
        ensures
            r.value & 0xF000_C000_0000_0000_0000 == 0x4000_8000_0000_0000_0000,
    {
        ArtifactId::new()
    }
}

/// The identity of a decision to try again.
#[derive(Clone, Copy, Debug, PartialEq, Eq, PartialOrd, Ord, Hash, Structural)]
pub struct RetryDecisionId {
    pub value: u128,
}

impl RetryDecisionId {
    /// A fresh random identity.
    pub fn new() -> (r: RetryDecisionId)
        ensures
            r.value & 0xF000_C000_0000_0000_0000 == 0x4000_8000_0000_0000_0000,
    {
        RetryDecisionId { value: random_uuid() }
    }

    /// The identity with the given bits.
    pub fn from_uuid(value: u128) -> (r: RetryDecisionId)
        ensures
            r.value == value,
    {
        RetryDecisionId { value }
    }

    /// The hyphenated text.
    pub fn to_text(&self) -> (r: String)
        ensures
            r@ == uuid_text(self.value),
    {
        uuid_to_text(self.value)
    }
}

impl Default for RetryDecisionId {
    fn default() -> (r: RetryDecisionId)
        ensures
            r.value & 0xF000_C000_0000_0000_0000 == 0x4000_8000_0000_0000_0000,
    {
        RetryDecisionId::new()
    }
}

/// What an artifact is.
#[derive(Clone, Copy, Debug, PartialEq, Eq, Structural)]
pub enum ArtifactKind {
    Text,
    Patch,
    Design,
    Test,
    TaskPlan,
    CodeReview,
    DiagnosticReport,
    Blob,
}

impl ArtifactKind {
    /// The name on the wire.
    pub open spec fn name(self) -> Seq<char> {
        match self {
            ArtifactKind::Text => "text"@,
            ArtifactKind::Patch => "patch"@,
            ArtifactKind::Design => "design"@,
            ArtifactKind::Test => "test"@,
            ArtifactKind::TaskPlan => "task_plan"@,
            ArtifactKind::CodeReview => "code_review"@,
            ArtifactKind::DiagnosticReport => "diagnostic_report"@,
            ArtifactKind::Blob => "blob"@,
        }
    }

    /// The name on the wire.
    pub fn as_str(self) -> (r: &'static str)
        ensures
            r@ == self.name(),
    {
        match self {
            ArtifactKind::Text => "text",
            ArtifactKind::Patch => "patch",
            ArtifactKind::Design => "design",
            ArtifactKind::Test => "test",
            ArtifactKind::TaskPlan => "task_plan",
            ArtifactKind::CodeReview => "code_review",
            ArtifactKind::DiagnosticReport => "diagnostic_report",
            ArtifactKind::Blob => "blob",
        }
    }
}

impl ArtifactKind {
    /// The kind of artifact that a task produces.
    pub open spec fn of_output(value: TaskOutputKind) -> ArtifactKind {
        match value {
            TaskOutputKind::Text => ArtifactKind::Text,
            TaskOutputKind::Patch => ArtifactKind::Patch,
            TaskOutputKind::Design => ArtifactKind::Design,
            TaskOutputKind::Test => ArtifactKind::Test,
            TaskOutputKind::Plan => ArtifactKind::TaskPlan,
            TaskOutputKind::Review => ArtifactKind::CodeReview,
            TaskOutputKind::Diagnostic => ArtifactKind::DiagnosticReport,
            TaskOutputKind::Artifact => ArtifactKind::Blob,
        }
    }

    /// The kind of artifact that a task produces.
    pub fn from_task_output(value: TaskOutputKind) -> (r: ArtifactKind)
        ensures
            r == ArtifactKind::of_output(value),
    {
        match value {
            TaskOutputKind::Text => ArtifactKind::Text,
            TaskOutputKind::Patch => ArtifactKind::Patch,
            TaskOutputKind::Design => ArtifactKind::Design,
            TaskOutputKind::Test => ArtifactKind::Test,
            TaskOutputKind::Plan => ArtifactKind::TaskPlan,
            TaskOutputKind::Review => ArtifactKind::CodeReview,
            TaskOutputKind::Diagnostic => ArtifactKind::DiagnosticReport,
            TaskOutputKind::Artifact => ArtifactKind::Blob,
        }
    }

    /// The media type.
    pub open spec fn media_name(self) -> Seq<char> {
        match self {
            ArtifactKind::Patch => "text/x-diff; charset=utf-8"@,
            ArtifactKind::Text => "text/plain; charset=utf-8"@,
            ArtifactKind::Blob => "application/octet-stream"@,
            _ => "text/markdown; charset=utf-8"@,
        }
    }

    /// The media type.
    pub fn media(self) -> (r: &'static str)
        ensures
            r@ == self.media_name(),
    {
        match self {
            ArtifactKind::Patch => "text/x-diff; charset=utf-8",
            ArtifactKind::Text => "text/plain; charset=utf-8",
            ArtifactKind::Blob => "application/octet-stream",
            _ => "text/markdown; charset=utf-8",
        }
    }
}

/// The verdict on an artifact.
#[derive(Clone, Copy, Debug, PartialEq, Eq, Structural)]
pub enum ArtifactValidationState {
    Accepted,
    Rejected,
}

impl ArtifactValidationState {
    /// The name on the wire.
    pub open spec fn name(self) -> Seq<char> {
        match self {
            ArtifactValidationState::Accepted => "accepted"@,
            ArtifactValidationState::Rejected => "rejected"@,
        }
    }

    /// The name on the wire.
    pub fn as_str(self) -> (r: &'static str)
        ensures
            r@ == self.name(),
    {
        match self {
            ArtifactValidationState::Accepted => "accepted",
            ArtifactValidationState::Rejected => "rejected",
        }
    }
}

/// Why an artifact is refused.
#[derive(Clone, Copy, Debug, PartialEq, Eq, Structural)]
pub enum ArtifactError {
    InvalidContent,
    InvalidMediaType,
    DigestMismatch,
    SecretArtifactDenied,
    InvalidProvenance,
    InvalidPreviewLimit,
    InvalidReference,
}

impl ArtifactError {
    /// The message of the error.
    pub open spec fn text(self) -> Seq<char> {
        match self {
            ArtifactError::InvalidContent => "artifact content is empty or too large"@,
            ArtifactError::InvalidMediaType => "artifact media type is invalid"@,
            ArtifactError::DigestMismatch => "artifact digest mismatch"@,
            ArtifactError::SecretArtifactDenied => "secret artifact denied"@,
            ArtifactError::InvalidProvenance => "artifact provenance is invalid"@,
            ArtifactError::InvalidPreviewLimit => "artifact preview limit is invalid"@,
            ArtifactError::InvalidReference => "artifact reference is invalid"@,
        }
    }

    /// The message of the error.
    pub fn message(&self) -> (r: &'static str)
        ensures
            r@ == self.text(),
    {
        match self {
            ArtifactError::InvalidContent => "artifact content is empty or too large",
            ArtifactError::InvalidMediaType => "artifact media type is invalid",
            ArtifactError::DigestMismatch => "artifact digest mismatch",
            ArtifactError::SecretArtifactDenied => "secret artifact denied",
            ArtifactError::InvalidProvenance => "artifact provenance is invalid",
            ArtifactError::InvalidPreviewLimit => "artifact preview limit is invalid",
            ArtifactError::InvalidReference => "artifact reference is invalid",
        }
    }
}

/// The identities ascend: each stands once.
pub open spec fn actions_ascend(v: Seq<ActionId>) -> bool {
    forall|i: int, j: int| #![trigger v[i], v[j]] 0 <= i < j < v.len() ==> v[i].value < v[j].value
}

/// The first position, from `i` on, whose identity is not less.
pub open spec fn action_slot(v: Seq<ActionId>, x: ActionId, i: int) -> int
    decreases v.len() - i,
{
    if 0 <= i < v.len() && v[i].value < x.value {
        action_slot(v, x, i + 1)
    } else {
        i
    }
}

/// The ascending list with `x` in its place.
pub open spec fn with_action(v: Seq<ActionId>, x: ActionId) -> Seq<ActionId> {
    let at = action_slot(v, x, 0);
    if at < v.len() && v[at] == x {
        v
    } else {
        v.insert(at, x)
    }
}

/// The identities in ascending order, each once.
pub open spec fn action_set(v: Seq<ActionId>) -> Seq<ActionId>
    decreases v.len(),
{
    if v.len() == 0 {
        v
    } else {
        with_action(action_set(v.drop_last()), v.last())
    }
}

proof fn action_slot_parts(v: Seq<ActionId>, x: ActionId, i: int)
    requires
        0 <= i <= v.len(),
    ensures
        i <= action_slot(v, x, i) <= v.len(),
        forall|k: int| i <= k < action_slot(v, x, i) ==> (#[trigger] v[k]).value < x.value,
        action_slot(v, x, i) < v.len() ==> v[action_slot(v, x, i)].value >= x.value,
    decreases v.len() - i,
{
    if i < v.len() && v[i].value < x.value {
        action_slot_parts(v, x, i + 1);
    }
}

/// The set of some identities ascends and holds these identities.
pub proof fn action_set_members(v: Seq<ActionId>)
    ensures
        actions_ascend(action_set(v)),
        forall|x: ActionId| #[trigger] action_set(v).contains(x) <==> v.contains(x),
    decreases v.len(),
{
    if v.len() > 0 {
        let head = v.drop_last();
        let h = action_set(head);
        let x = v.last();
        action_set_members(head);
        action_slot_parts(h, x, 0);
        let at = action_slot(h, x, 0);
        let r = action_set(v);
        if !(at < h.len() && h[at] == x) {
            assert(r == h.insert(at, x));
            assert forall|i: int, j: int|
                #![trigger r[i], r[j]]
                0 <= i < j < r.len() implies r[i].value < r[j].value by {
                if j < at {
                    assert(h[i].value < h[j].value);
                } else if j == at {
                    assert(h[i].value < x.value);
                } else if i < at {
                    assert(h[i].value < h[j - 1].value);
                } else if i == at {
                    if j - 1 > at {
                        assert(h[at].value < h[j - 1].value);
                    }
                } else {
                    assert(h[i - 1].value < h[j - 1].value);
                }
            }
        }
        assert forall|y: ActionId| #[trigger] r.contains(y) <==> v.contains(y) by {
            assert(v[v.len() - 1] == x);
            if v.contains(y) && y != x {
                let k = choose|k: int| 0 <= k < v.len() && v[k] == y;
                assert(head[k] == y);
                assert(head.contains(y));
            }
            if head.contains(y) {
                let k = choose|k: int| 0 <= k < head.len() && head[k] == y;
                assert(v[k] == y);
            }
            assert(h.contains(y) <==> head.contains(y));
            if at < h.len() && h[at] == x {
                assert(h.contains(x));
            } else {
                assert(r[at] == x);
                if h.contains(y) {
                    let k = choose|k: int| 0 <= k < h.len() && h[k] == y;
                    if k < at {
                        assert(r[k] == y);
                    } else {
                        assert(r[k + 1] == y);
                    }
                }
                if r.contains(y) && y != x {
                    let k = choose|k: int| 0 <= k < r.len() && r[k] == y;
                    if k < at {
                        assert(h[k] == y);
                    } else {
                        assert(h[k - 1] == y);
                    }
                }
            }
        }
    }
}

fn collect_actions(list: &Vec<ActionId>) -> (r: Vec<ActionId>)
    ensures
        r@ == action_set(list@),
{
    let mut out: Vec<ActionId> = Vec::new();
    let mut i: usize = 0;
    proof {
        assert(list@.take(0) =~= Seq::<ActionId>::empty());
        assert(out@ =~= action_set(list@.take(0)));
    }
    while i < list.len()
        invariant
            i <= list@.len(),
            out@ == action_set(list@.take(i as int)),
        decreases list@.len() - i,
    {
        let x = list[i];
        let ghost before = out@;
        let mut at: usize = 0;
        proof {
            assert(list@.take(i + 1).drop_last() =~= list@.take(i as int));
            assert(list@.take(i + 1).last() == x);
            action_slot_parts(before, x, 0);
        }
        while at < out.len() && out[at].value < x.value
            invariant
                at <= out@.len(),
                out@ == before,
                action_slot(before, x, 0) == action_slot(before, x, at as int),
            decreases out@.len() - at,
        {
            at += 1;
        }
        if !(at < out.len() && out[at] == x) {
            out.insert(at, x);
        }
        i += 1;
    }
    proof {
        assert(list@.take(i as int) =~= list@);
    }
    out
}

/// Where an artifact comes from.
#[derive(Clone, Debug, PartialEq, Eq)]
pub struct ArtifactProvenance {
    pub orchestration_id: OrchestrationId,
    pub graph_revision: u64,
    pub task_node_id: TaskNodeId,
    pub worker_attempt_id: WorkerAttemptId,
    pub run_id: RunId,
    pub provider_id: ProviderId,
    pub provider_revision: u64,
    pub model_profile_id: ModelProfileId,
    pub model_profile_revision: u64,
    pub reasoning_profile: Option<ReasoningProfile>,
    pub policy_revision: u64,
    pub projection_id: ProjectionId,
    pub projection_digest: ContextDigest,
    pub tool_action_ids: Vec<ActionId>,
}

/// The model of a `ArtifactProvenance`.
pub struct ArtifactProvenanceView {
    pub orchestration_id: OrchestrationId,
    pub graph_revision: u64,
    pub task_node_id: TaskNodeId,
    pub worker_attempt_id: WorkerAttemptId,
    pub run_id: RunId,
    pub provider_id: Seq<char>,
    pub provider_revision: u64,
    pub model_profile_id: Seq<char>,
    pub model_profile_revision: u64,
    pub reasoning_profile: Option<ReasoningProfile>,
    pub policy_revision: u64,
    pub projection_id: ProjectionId,
    pub projection_digest: Seq<char>,
    pub tool_action_ids: Seq<ActionId>,
}

impl View for ArtifactProvenance {
    type V = ArtifactProvenanceView;

    open spec fn view(&self) -> ArtifactProvenanceView {
        ArtifactProvenanceView {
            orchestration_id: self.orchestration_id,
            graph_revision: self.graph_revision,
            task_node_id: self.task_node_id,
            worker_attempt_id: self.worker_attempt_id,
            run_id: self.run_id,
            provider_id: self.provider_id@,
            provider_revision: self.provider_revision,
            model_profile_id: self.model_profile_id@,
            model_profile_revision: self.model_profile_revision,
            reasoning_profile: self.reasoning_profile,
            policy_revision: self.policy_revision,
            projection_id: self.projection_id,
            projection_digest: self.projection_digest@,
            tool_action_ids: self.tool_action_ids@,
        }
    }
}

impl ArtifactProvenance {
    /// Checks and takes the parts. The actions are kept in ascending order,
    /// each once.
    pub fn new(
        orchestration_id: OrchestrationId,
        graph_revision: u64,
        task_node_id: TaskNodeId,
        worker_attempt_id: WorkerAttemptId,
        run_id: RunId,
        provider_id: ProviderId,
        provider_revision: u64,
        model_profile_id: ModelProfileId,
        model_profile_revision: u64,
        reasoning_profile: Option<ReasoningProfile>,
        policy_revision: u64,
        projection_id: ProjectionId,
        projection_digest: ContextDigest,
        tool_action_ids: Vec<ActionId>,
    ) -> (r: Result<ArtifactProvenance, ArtifactError>)
        ensures
            ({
                let ok = graph_revision > 0 && provider_revision > 0 && model_profile_revision > 0
                    && policy_revision > 0;
                match r {
                    Ok(p) => ok && p@ == (ArtifactProvenanceView {
                        orchestration_id,
                        graph_revision,
                        task_node_id,
                        worker_attempt_id,
                        run_id,
                        provider_id: provider_id@,
                        provider_revision,
                        model_profile_id: model_profile_id@,
                        model_profile_revision,
                        reasoning_profile,
                        policy_revision,
                        projection_id,
                        projection_digest: projection_digest@,
                        tool_action_ids: action_set(tool_action_ids@),
                    }),
                    Err(e) => !ok && e == ArtifactError::InvalidProvenance,
                }
            }),
    {
        if graph_revision == 0 || provider_revision == 0 || model_profile_revision == 0
            || policy_revision == 0 {
            return Err(ArtifactError::InvalidProvenance);
        }
        Ok(
            ArtifactProvenance {
                orchestration_id,
                graph_revision,
                task_node_id,
                worker_attempt_id,
                run_id,
                provider_id,
                provider_revision,
                model_profile_id,
                model_profile_revision,
                reasoning_profile,
                policy_revision,
                projection_id,
                projection_digest,
                tool_action_ids: collect_actions(&tool_action_ids),
            },
        )
    }
}

/// What a worker produced.
#[derive(Clone, Debug, PartialEq, Eq)]
pub struct WorkerArtifact {
    pub id: ArtifactId,
    pub workspace_id: WorkspaceId,
    pub kind: ArtifactKind,
    pub media_type: String,
    pub content: Vec<u8>,
    pub content_hash: ContextDigest,
    pub classification: DataClass,
    pub compartments: TextSet,
    pub provenance: ArtifactProvenance,
    pub created_at: TimestampMillis,
}

/// The model of a `WorkerArtifact`.
pub struct ArtifactView {
    pub id: ArtifactId,
    pub workspace_id: WorkspaceId,
    pub kind: ArtifactKind,
    pub media_type: Seq<char>,
    pub content: Seq<u8>,
    pub content_hash: Seq<char>,
    pub classification: DataClass,
    pub compartments: Seq<Seq<char>>,
    pub provenance: ArtifactProvenanceView,
    pub created_at: TimestampMillis,
}

impl View for WorkerArtifact {
    type V = ArtifactView;

    open spec fn view(&self) -> ArtifactView {
        ArtifactView {
            id: self.id,
            workspace_id: self.workspace_id,
            kind: self.kind,
            media_type: self.media_type@,
            content: self.content@,
            content_hash: self.content_hash@,
            classification: self.classification,
            compartments: self.compartments@,
            provenance: self.provenance@,
            created_at: self.created_at,
        }
    }
}

/// The model of an artifact, or why there is none.
pub open spec fn artifact_view(r: Result<WorkerArtifact, ArtifactError>) -> Result<
    ArtifactView,
    ArtifactError,
> {
    match r {
        Ok(a) => Ok(a@),
        Err(e) => Err(e),
    }
}

/// An artifact with the digest of its content, or why there is none.
pub open spec fn artifact(
    id: ArtifactId,
    workspace_id: WorkspaceId,
    kind: ArtifactKind,
    media_type: Seq<char>,
    content: Seq<u8>,
    classification: DataClass,
    compartments: Seq<Seq<char>>,
    provenance: ArtifactProvenanceView,
    created_at: TimestampMillis,
) -> Result<ArtifactView, ArtifactError> {
    if content.len() == 0 || content.len() > MAX_ARTIFACT_BYTES {
        Err(ArtifactError::InvalidContent)
    } else if !plain_text(media_type, 128) {
        Err(ArtifactError::InvalidMediaType)
    } else if classification == DataClass::Secret {
        Err(ArtifactError::SecretArtifactDenied)
    } else {
        Ok(
            ArtifactView {
                id,
                workspace_id,
                kind,
                media_type,
                content,
                content_hash: sha256_hex_text(content),
                classification,
                compartments: text_set(compartments),
                provenance,
                created_at,
            },
        )
    }
}

/// The text that bytes are shown as: their UTF-8, with a replacement character
/// for what is none.
pub uninterp spec fn lossy_text(bytes: Seq<u8>) -> Seq<char>;

/// `String::from_utf8_lossy`. The text depends on the bytes alone.
#[verifier::external_body]
fn from_utf8_lossy(bytes: &[u8]) -> (r: String)
    ensures
        r@ == lossy_text(bytes@),
{
    String::from_utf8_lossy(bytes).into_owned()
}

fn copy_bytes(bytes: &[u8], n: usize) -> (r: Vec<u8>)
    requires
        n <= bytes@.len(),
    ensures
        r@ == bytes@.take(n as int),
{
    let mut out: Vec<u8> = Vec::new();
    let mut i: usize = 0;
    while i < n
        invariant
            i <= n <= bytes@.len(),
            out@ == bytes@.take(i as int),
        decreases n - i,
    {
        out.push(bytes[i]);
        proof {
            assert(out@ =~= bytes@.take(i + 1));
        }
        i += 1;
    }
    out
}

fn compartment_set(v: &Vec<CompartmentId>) -> (r: TextSet)
    ensures
        r@ == text_set(views(v@)),
{
    let mut out: Vec<String> = Vec::new();
    let mut i: usize = 0;
    while i < v.len()
        invariant
            i <= v@.len(),
            out@.len() == i,
            forall|k: int| 0 <= k < i ==> (#[trigger] out@[k])@ == v@[k]@,
        decreases v@.len() - i,
    {
        out.push(v[i].as_str().to_owned());
        i += 1;
    }
    proof {
        assert(texts(out@) =~= views(v@));
    }
    TextSet::from_list(out)
}

impl ArtifactView {
    /// The reference to the artifact with a preview of at most `limit` bytes.
    pub open spec fn referred(self, limit: int) -> ReferenceView {
        let end = if self.content.len() < limit {
            self.content.len() as int
        } else {
            limit
        };
        ReferenceView {
            artifact_id: self.id,
            uri: "artifact://"@ + uuid_text(self.id.value),
            kind: self.kind,
            media_type: self.media_type,
            content_hash: self.content_hash,
            classification: self.classification,
            compartments: self.compartments,
            preview: lossy_text(self.content.take(end)),
            truncated: self.content.len() > end,
            validation_state: None,
        }
    }
}

impl WorkerArtifact {
    /// Checks and takes the parts.
    pub fn new(
        id: ArtifactId,
        workspace_id: WorkspaceId,
        kind: ArtifactKind,
        media_type: String,
        content: Vec<u8>,
        classification: DataClass,
        compartments: Vec<CompartmentId>,
        provenance: ArtifactProvenance,
        created_at: TimestampMillis,
    ) -> (r: Result<WorkerArtifact, ArtifactError>)
        ensures
            artifact_view(r) == artifact(
                id,
                workspace_id,
                kind,
                media_type@,
                content@,
                classification,
                views(compartments@),
                provenance@,
                created_at,
            ),
    {
        if content.len() == 0 || content.len() > MAX_ARTIFACT_BYTES {
            return Err(ArtifactError::InvalidContent);
        }
        if !is_plain_text(media_type.as_str(), 128) {
            return Err(ArtifactError::InvalidMediaType);
        }
        if classification == DataClass::Secret {
            return Err(ArtifactError::SecretArtifactDenied);
        }
        let content_hash = ContextDigest::from_bytes(content.as_slice());
        Ok(
            WorkerArtifact {
                id,
                workspace_id,
                kind,
                media_type,
                content,
                content_hash,
                classification,
                compartments: compartment_set(&compartments),
                provenance,
                created_at,
            },
        )
    }

    /// A text, under the media type of its kind.
    pub fn from_text(
        id: ArtifactId,
        workspace_id: WorkspaceId,
        kind: ArtifactKind,
        text: &str,
        classification: DataClass,
        compartments: Vec<CompartmentId>,
        provenance: ArtifactProvenance,
        created_at: TimestampMillis,
    ) -> (r: Result<WorkerArtifact, ArtifactError>)
        ensures
            artifact_view(r) == artifact(
                id,
                workspace_id,
                kind,
                kind.media_name(),
                encode_utf8(text@),
                classification,
                views(compartments@),
                provenance@,
                created_at,
            ),
    {
        let bytes = text.as_bytes();
        let n: usize = bytes.len();
        let content = copy_bytes(bytes, n);
        proof {
            assert(content@ =~= encode_utf8(text@));
        }
        WorkerArtifact::new(
            id,
            workspace_id,
            kind,
            kind.media().to_owned(),
            content,
            classification,
            compartments,
            provenance,
            created_at,
        )
    }

    /// Checks that the digest is that of the content.
    pub fn verify(&self) -> (r: Result<(), ArtifactError>)
        ensures
            match r {
                Ok(()) => sha256_hex_text(self@.content) == self@.content_hash,
                Err(e) => sha256_hex_text(self@.content) != self@.content_hash && e
                    == ArtifactError::DigestMismatch,
            },
    {
        if !ContextDigest::from_bytes(self.content.as_slice()).same(&self.content_hash) {
            Err(ArtifactError::DigestMismatch)
        } else {
            Ok(())
        }
    }

    /// A reference to the artifact with a preview of at most `max` bytes.
    pub fn reference(&self, max: usize) -> (r: Result<ArtifactReference, ArtifactError>)
        ensures
            match r {
                Ok(a) => max > 0 && a@ == self@.referred(
                    if max < MAX_ARTIFACT_PREVIEW_BYTES {
                        max as int
                    } else {
                        MAX_ARTIFACT_PREVIEW_BYTES as int
                    },
                ),
                Err(e) => max == 0 && e == ArtifactError::InvalidPreviewLimit,
            },
    {
        let limit = if max < MAX_ARTIFACT_PREVIEW_BYTES {
            max
        } else {
            MAX_ARTIFACT_PREVIEW_BYTES
        };
        if limit == 0 {
            return Err(ArtifactError::InvalidPreviewLimit);
        }
        let end: usize = if self.content.len() < limit {
            self.content.len()
        } else {
            limit
        };
        let shown = copy_bytes(self.content.as_slice(), end);
        let mut uri = "artifact://".to_owned();
        uri.append(self.id.to_text().as_str());
        Ok(
            ArtifactReference {
                artifact_id: self.id,
                uri,
                kind: self.kind,
                media_type: self.media_type.clone(),
                content_hash: self.content_hash.clone(),
                classification: self.classification,
                compartments: self.compartments.clone(),
                preview: from_utf8_lossy(shown.as_slice()),
                truncated: self.content.len() > end,
                validation_state: None,
            },
        )
    }
}

/// What is said of an artifact elsewhere.
#[derive(Clone, Debug, PartialEq, Eq)]
pub struct ArtifactReference {
    pub artifact_id: ArtifactId,
    pub uri: String,
    pub kind: ArtifactKind,
    pub media_type: String,
    pub content_hash: ContextDigest,
    pub classification: DataClass,
    pub compartments: TextSet,
    pub preview: String,
    pub truncated: bool,
    pub validation_state: Option<ArtifactValidationState>,
}

/// The model of a `ArtifactReference`.
pub struct ReferenceView {
    pub artifact_id: ArtifactId,
    pub uri: Seq<char>,
    pub kind: ArtifactKind,
    pub media_type: Seq<char>,
    pub content_hash: Seq<char>,
    pub classification: DataClass,
    pub compartments: Seq<Seq<char>>,
    pub preview: Seq<char>,
    pub truncated: bool,
    pub validation_state: Option<ArtifactValidationState>,
}

impl View for ArtifactReference {
    type V = ReferenceView;

    open spec fn view(&self) -> ReferenceView {
        ReferenceView {
            artifact_id: self.artifact_id,
            uri: self.uri@,
            kind: self.kind,
            media_type: self.media_type@,
            content_hash: self.content_hash@,
            classification: self.classification,
            compartments: self.compartments@,
            preview: self.preview@,
            truncated: self.truncated,
            validation_state: self.validation_state,
        }
    }
}

impl ReferenceView {
    /// The JSON value of the source.
    pub open spec fn content(self) -> JsonView {
        JsonView::Object(
            no_fields().push(("artifact_id"@, JsonView::Str(uuid_text(self.artifact_id.value)))).push(
                ("artifact_uri"@, JsonView::Str(self.uri)),
            ).push(("preview"@, JsonView::Str(self.preview))).push(
                ("sha256"@, JsonView::Str(self.content_hash)),
            ).push(
                (
                    "validation_state"@,
                    JsonView::Str(
                        match self.validation_state {
                            Some(v) => v.name(),
                            None => "untrusted"@,
                        },
                    ),
                ),
            ),
        )
    }

    /// The source of context that shows the reference. It is as sensitive as
    /// the artifact, and in its compartments.
    pub open spec fn source(
        self,
        id: ContextSourceId,
        workspace: WorkspaceId,
        created_by: PrincipalView,
        created_at: TimestampMillis,
    ) -> SourceView {
        (SourceView {
            id,
            workspace_id: workspace,
            classification: self.classification,
            compartments: self.compartments,
            provenance: ProvenanceView {
                kind: SourceProvenanceKind::Artifact,
                reference: self.uri,
            },
            content: self.content(),
            digest: Seq::empty(),
            created_by,
            created_at,
        }).digested()
    }
}

fn member(key: &str, value: &str) -> (r: (String, CanonicalValue))
    ensures
        r.0@ == key@,
        r.1@ == JsonView::Str(value@),
{
    (key.to_owned(), CanonicalValue::text(value))
}

impl ArtifactReference {
    /// The same reference with a verdict.
    pub fn with_validation(self, validation: Option<ArtifactValidationState>) -> (r:
        ArtifactReference)
        ensures
            r@ == (ReferenceView { validation_state: validation, ..self@ }),
    {
        let mut out = self;
        out.validation_state = validation;
        out
    }

    /// The source of context that shows the reference.
    pub fn to_context_source(
        &self,
        id: ContextSourceId,
        workspace: WorkspaceId,
        created_by: PrincipalId,
        created_at: TimestampMillis,
    ) -> (r: Result<ContextSource, ArtifactError>)
        ensures
            match r {
                Ok(s) => plain_text(self@.uri, 4096) && s@ == self@.source(
                    id,
                    workspace,
                    created_by@,
                    created_at,
                ),
                Err(e) => !plain_text(self@.uri, 4096) && e == ArtifactError::InvalidReference,
            },
    {
        let mut m: Vec<(String, CanonicalValue)> = Vec::new();
        m.push(member("artifact_id", self.artifact_id.to_text().as_str()));
        m.push(member("artifact_uri", self.uri.as_str()));
        m.push(member("preview", self.preview.as_str()));
        m.push(member("sha256", self.content_hash.as_str()));
        m.push(
            member(
                "validation_state",
                match self.validation_state {
                    Some(v) => v.as_str(),
                    None => "untrusted",
                },
            ),
        );
        let content = CanonicalValue::Object(m);
        proof {
            assert(content@->Object_0 =~= self@.content()->Object_0);
        }
        let provenance = match SourceProvenance::new(
            SourceProvenanceKind::Artifact,
            self.uri.clone(),
        ) {
            Ok(p) => p,
            Err(_) => {
                return Err(ArtifactError::InvalidReference);
            },
        };
        Ok(
            ContextSource::assemble(
                id,
                workspace,
                self.classification,
                self.compartments.clone(),
                provenance,
                content,
                created_by,
                created_at,
            ),
        )
    }
}

/// An artifact is never secret, its digest is that of its content, and a
/// reference to it shows no more than a preview, as sensitive as the artifact.
pub proof fn references_keep_taint(
    id: ArtifactId,
    workspace_id: WorkspaceId,
    kind: ArtifactKind,
    media_type: Seq<char>,
    content: Seq<u8>,
    classification: DataClass,
    compartments: Seq<Seq<char>>,
    provenance: ArtifactProvenanceView,
    created_at: TimestampMillis,
    limit: int,
    source_id: ContextSourceId,
    by: PrincipalView,
)
    ensures
        artifact(
            id,
            workspace_id,
            kind,
            media_type,
            content,
            classification,
            compartments,
            provenance,
            created_at,
        ) matches Ok(a) ==> {
            let s = a.referred(limit).source(source_id, workspace_id, by, created_at);
            &&& a.classification != DataClass::Secret
            &&& a.content_hash == sha256_hex_text(a.content)
            &&& s.classification == a.classification
            &&& s.compartments == a.compartments
        },
{
}

/// What a failed attempt may have done.
#[derive(Clone, Copy, Debug, PartialEq, Eq, Structural)]
pub enum EffectRisk {
    NoEffect,
    KnownEffect,
    UnknownEffect,
}

/// How an attempt failed.
#[derive(Clone, Copy, Debug, PartialEq, Eq, Structural)]
pub enum FailureClass {
    ModelFailure,
    InvalidModelOutput,
    ApprovalInfrastructure,
    AuditFailure,
    PersistenceFailure,
    DispatchFailure,
    ExecutorFailure,
    PolicyDenied,
    ApprovalRejected,
    BudgetExhausted,
    Cancelled,
    ExecutionTimedOut,
    RequiredSkillUnavailable,
    UnknownFailure,
}

/// Who tries again.
#[derive(Clone, Copy, Debug, PartialEq, Eq, Structural)]
pub enum RetryMode {
    SameWorker,
    Reassign,
}

/// Who may try again.
#[derive(Clone, Copy, Debug, PartialEq, Eq, Structural)]
pub enum RetryDisposition {
    SameWorker,
    Reassign,
    Either,
    ReconciliationRequired,
    ManualOnly,
    NoRetry,
}

impl RetryDisposition {
    /// The mode is allowed.
    pub open spec fn admits(self, mode: RetryMode) -> bool {
        self == RetryDisposition::Either || (self == RetryDisposition::SameWorker && mode
            == RetryMode::SameWorker) || (self == RetryDisposition::Reassign && mode
            == RetryMode::Reassign)
    }

    /// Whether the mode is allowed.
    pub fn allows(self, mode: RetryMode) -> (r: bool)
        ensures
            r == self.admits(mode),
    {
        match (self, mode) {
            (RetryDisposition::SameWorker, RetryMode::SameWorker) => true,
            (RetryDisposition::Reassign, RetryMode::Reassign) => true,
            (RetryDisposition::Either, _) => true,
            _ => false,
        }
    }
}

/// The failure is that of a model.
pub open spec fn model_at_fault(f: FailureClass) -> bool {
    f == FailureClass::ModelFailure || f == FailureClass::InvalidModelOutput
}

/// The failure is a decision, which trying again would not change.
pub open spec fn was_decided(f: FailureClass) -> bool {
    f == FailureClass::PolicyDenied || f == FailureClass::ApprovalRejected || f
        == FailureClass::BudgetExhausted || f == FailureClass::Cancelled || f
        == FailureClass::RequiredSkillUnavailable
}

/// Who may try again after a failure. What took effect is left to people, and
/// what may have taken effect must be reconciled first.
pub open spec fn disposition(
    failure: FailureClass,
    risk: EffectRisk,
    reconciled: bool,
) -> RetryDisposition {
    if risk == EffectRisk::KnownEffect {
        RetryDisposition::ManualOnly
    } else if risk == EffectRisk::UnknownEffect && !reconciled {
        RetryDisposition::ReconciliationRequired
    } else if model_at_fault(failure) {
        RetryDisposition::Reassign
    } else if was_decided(failure) {
        RetryDisposition::NoRetry
    } else if risk == EffectRisk::NoEffect && (failure == FailureClass::ExecutionTimedOut || failure
        == FailureClass::UnknownFailure) {
        RetryDisposition::ManualOnly
    } else {
        RetryDisposition::Either
    }
}

/// Who may try again after a failure.
pub fn retry_disposition(failure: FailureClass, risk: EffectRisk, reconciled: bool) -> (r:
    RetryDisposition)
    ensures
        r == disposition(failure, risk, reconciled),
{
    match risk {
        EffectRisk::KnownEffect => RetryDisposition::ManualOnly,
        EffectRisk::UnknownEffect => {
            if !reconciled {
                return RetryDisposition::ReconciliationRequired;
            }
            match failure {
                FailureClass::ModelFailure
                | FailureClass::InvalidModelOutput => RetryDisposition::Reassign,
                FailureClass::PolicyDenied
                | FailureClass::ApprovalRejected
                | FailureClass::BudgetExhausted
                | FailureClass::Cancelled
                | FailureClass::RequiredSkillUnavailable => RetryDisposition::NoRetry,
                _ => RetryDisposition::Either,
            }
        },
        EffectRisk::NoEffect => match failure {
            FailureClass::ModelFailure
            | FailureClass::InvalidModelOutput => RetryDisposition::Reassign,
            FailureClass::ApprovalInfrastructure
            | FailureClass::AuditFailure
            | FailureClass::PersistenceFailure
            | FailureClass::DispatchFailure
            | FailureClass::ExecutorFailure => RetryDisposition::Either,
            FailureClass::PolicyDenied
            | FailureClass::ApprovalRejected
            | FailureClass::BudgetExhausted
            | FailureClass::Cancelled
            | FailureClass::RequiredSkillUnavailable => RetryDisposition::NoRetry,
            FailureClass::ExecutionTimedOut
            | FailureClass::UnknownFailure => RetryDisposition::ManualOnly,
        },
    }
}

/// Nothing is tried again by itself that took effect, that may have taken
/// effect and was not reconciled, or that was decided.
pub proof fn retries_are_conservative(
    failure: FailureClass,
    risk: EffectRisk,
    reconciled: bool,
    mode: RetryMode,
)
    requires
        disposition(failure, risk, reconciled).admits(mode),
    ensures
        risk != EffectRisk::KnownEffect,
        risk == EffectRisk::UnknownEffect ==> reconciled,
        !was_decided(failure),
        model_at_fault(failure) ==> mode == RetryMode::Reassign,
{
}

/// An artifact is taken exactly if it has between one byte and two mebibytes of
/// content, a plain media type of at most 128 bytes, and is not secret. It then
/// holds what was given, with each compartment.
pub proof fn artifacts_hold_what_was_given(
    id: ArtifactId,
    workspace_id: WorkspaceId,
    kind: ArtifactKind,
    media_type: Seq<char>,
    content: Seq<u8>,
    classification: DataClass,
    compartments: Seq<Seq<char>>,
    provenance: ArtifactProvenanceView,
    created_at: TimestampMillis,
)
    ensures
        ({
            let r = artifact(
                id,
                workspace_id,
                kind,
                media_type,
                content,
                classification,
                compartments,
                provenance,
                created_at,
            );
            &&& r is Ok <==> 1 <= content.len() <= 2 * 1024 * 1024 && plain_text(media_type, 128)
                && classification != DataClass::Secret
            &&& r matches Ok(a) ==> {
                &&& a.id == id && a.workspace_id == workspace_id && a.kind == kind
                &&& a.media_type == media_type && a.content == content
                &&& a.classification == classification && a.provenance == provenance
                &&& a.created_at == created_at
                &&& forall|c: Seq<char>| #[trigger]
                    a.compartments.contains(c) <==> compartments.contains(c)
            }
        }),
{
    text_set_members(compartments);
}

/// A reference names the artifact that it is to, by identity, address and
/// digest, keeps its kind, its class and its compartments, and shows at most
/// `limit` of its bytes, from the start, saying whether there are more.
pub proof fn references_show_a_preview(a: ArtifactView, limit: int)
    requires
        0 <= limit,
    ensures
        ({
            let r = a.referred(limit);
            &&& r.artifact_id == a.id
            &&& r.uri == "artifact://"@ + uuid_text(a.id.value)
            &&& r.kind == a.kind && r.media_type == a.media_type
            &&& r.content_hash == a.content_hash
            &&& r.classification == a.classification && r.compartments == a.compartments
            &&& r.validation_state is None
            &&& a.content.len() <= limit ==> r.preview == lossy_text(a.content) && !r.truncated
            &&& a.content.len() > limit ==> r.preview == lossy_text(a.content.subrange(0, limit))
                && r.truncated
        }),
{
    assert(a.content.len() <= limit ==> a.content.take(a.content.len() as int) =~= a.content);
    assert(a.content.len() > limit ==> a.content.take(limit) =~= a.content.subrange(0, limit));
}

/// Who may try again, by cases: people alone after what took effect, and after
/// a time-out or an unknown failure that is thought to have had none; nobody
/// before what may have taken effect is reconciled, nor after a decision; only
/// another worker after a fault of the model; and either worker otherwise.
pub proof fn retries_are_decided_by_cases(
    failure: FailureClass,
    risk: EffectRisk,
    reconciled: bool,
)
    ensures
        ({
            let d = disposition(failure, risk, reconciled);
            let open = risk == EffectRisk::NoEffect || (risk == EffectRisk::UnknownEffect
                && reconciled);
            let vague = failure == FailureClass::ExecutionTimedOut || failure
                == FailureClass::UnknownFailure;
            let model = failure == FailureClass::ModelFailure || failure
                == FailureClass::InvalidModelOutput;
            let settled = failure == FailureClass::PolicyDenied || failure
                == FailureClass::ApprovalRejected || failure == FailureClass::BudgetExhausted
                || failure == FailureClass::Cancelled || failure
                == FailureClass::RequiredSkillUnavailable;
            &&& d == RetryDisposition::ManualOnly <==> risk == EffectRisk::KnownEffect || (risk
                == EffectRisk::NoEffect && vague)
            &&& d == RetryDisposition::ReconciliationRequired <==> risk
                == EffectRisk::UnknownEffect && !reconciled
            &&& d == RetryDisposition::Reassign <==> open && model
            &&& d == RetryDisposition::NoRetry <==> open && settled
            &&& d != RetryDisposition::SameWorker
        }),
{
}

/// What a task produces tells what kind of artifact it is, and the other way
/// round: no two outputs are of one kind.
pub proof fn outputs_have_a_kind_each(a: TaskOutputKind, b: TaskOutputKind)
    requires
        ArtifactKind::of_output(a) == ArtifactKind::of_output(b),
    ensures
        a == b,
{
}

} // verus!
