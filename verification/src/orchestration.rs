//! Task graphs: what is to be done, in which order, and how far it is.

use crate::action::ActionKind;
use crate::approval::TimestampMillis;
use crate::context::{
    class_name, class_names_differ, data_class_str, text_items, text_items_are_told_apart,
    text_set_json, CompartmentId, ProjectionTaskKey,
};
use crate::egress::DataClass;
use crate::ids::{random_uuid, uuid_text, uuid_to_text};
use crate::json::{
    array, item_models, no_fields, no_members, object, put, string, Json, JsonView,
};
use crate::lists::views;
use crate::ordered::TextSet;
use crate::provider::{
    in_order, in_order_is_ranked, model_capability_names_differ, ModelCapabilities,
    ModelCapability, ModelProfile, ModelProfileId, ProfileView,
};
use crate::sorting::text_set;
use crate::text::{
    byte_len, debug_string, debug_text, is_control, is_whitespace_char, str_byte_len, str_eq, str_lt,
    text_lt, text_lt_irreflexive, text_lt_total, text_lt_transitive, texts, to_chars,
};
use vstd::prelude::*;

pub mod graph;
pub mod state;

verus! {

/// The most nodes of a graph.
pub const MAX_TASK_NODES: usize = 256;

/// The most dependencies of a node.
pub const MAX_DEPENDENCIES_PER_NODE: usize = 32;

/// The most bytes of a description.
pub const MAX_TASK_DESCRIPTION_BYTES: usize = 8192;

/// The identity of an orchestration.
#[derive(Clone, Copy, Debug, PartialEq, Eq, PartialOrd, Ord, Hash, Structural)]
pub struct OrchestrationId {
    pub value: u128,
}

impl OrchestrationId {
    /// A fresh random identity.
    pub fn new() -> (r: OrchestrationId)
        ensures
            r.value & 0xF000_C000_0000_0000_0000 == 0x4000_8000_0000_0000_0000,
    {
        OrchestrationId { value: random_uuid() }
    }

    /// The identity with the given bits.
    pub fn from_uuid(value: u128) -> (r: OrchestrationId)
        ensures
            r.value == value,
    {
        OrchestrationId { value }
    }

    /// The bits of the identity.
    pub fn as_uuid(&self) -> (r: u128)
        ensures
            r == self.value,
    {
        self.value
    }

    /// The hyphenated text.
    pub fn to_text(&self) -> (r: String)
        ensures
            r@ == uuid_text(self.value),
    {
        uuid_to_text(self.value)
    }
}

impl Default for OrchestrationId {
    fn default() -> (r: OrchestrationId)
        ensures
            r.value & 0xF000_C000_0000_0000_0000 == 0x4000_8000_0000_0000_0000,
    {
        OrchestrationId::new()
    }
}

/// The identity of a node.
#[derive(Clone, Copy, Debug, PartialEq, Eq, PartialOrd, Ord, Hash, Structural)]
pub struct TaskNodeId {
    pub value: u128,
}

impl TaskNodeId {
    /// A fresh random identity.
    pub fn new() -> (r: TaskNodeId)
        ensures
            r.value & 0xF000_C000_0000_0000_0000 == 0x4000_8000_0000_0000_0000,
    {
        TaskNodeId { value: random_uuid() }
    }

    /// The identity with the given bits.
    pub fn from_uuid(value: u128) -> (r: TaskNodeId)
        ensures
            r.value == value,
    {
        TaskNodeId { value }
    }

    /// The bits of the identity.
    pub fn as_uuid(&self) -> (r: u128)
        ensures
            r == self.value,
    {
        self.value
    }

    /// The hyphenated text.
    pub fn to_text(&self) -> (r: String)
        ensures
            r@ == uuid_text(self.value),
    {
        uuid_to_text(self.value)
    }
}

impl Default for TaskNodeId {
    fn default() -> (r: TaskNodeId)
        ensures
            r.value & 0xF000_C000_0000_0000_0000 == 0x4000_8000_0000_0000_0000,
    {
        TaskNodeId::new()
    }
}

/// The name of a node in its graph.
pub type TaskNodeKey = ProjectionTaskKey;

/// What a task is to produce.
#[derive(Clone, Copy, Debug, PartialEq, Eq, PartialOrd, Ord, Hash, Structural)]
pub enum TaskOutputKind {
    Text,
    Patch,
    Design,
    Test,
    Plan,
    Review,
    Diagnostic,
    Artifact,
}

impl TaskOutputKind {
    /// The name on the wire.
    pub open spec fn name(self) -> Seq<char> {
        match self {
            TaskOutputKind::Text => "text"@,
            TaskOutputKind::Patch => "patch"@,
            TaskOutputKind::Design => "design"@,
            TaskOutputKind::Test => "test"@,
            TaskOutputKind::Plan => "plan"@,
            TaskOutputKind::Review => "review"@,
            TaskOutputKind::Diagnostic => "diagnostic"@,
            TaskOutputKind::Artifact => "artifact"@,
        }
    }

    /// The name on the wire.
    pub fn as_str(self) -> (r: &'static str)
        ensures
            r@ == self.name(),
    {
        match self {
            TaskOutputKind::Text => "text",
            TaskOutputKind::Patch => "patch",
            TaskOutputKind::Design => "design",
            TaskOutputKind::Test => "test",
            TaskOutputKind::Plan => "plan",
            TaskOutputKind::Review => "review",
            TaskOutputKind::Diagnostic => "diagnostic",
            TaskOutputKind::Artifact => "artifact",
        }
    }

    /// The value with the given name.
    pub fn parse(value: &str) -> (r: Option<TaskOutputKind>)
        ensures
            match r {
                Some(v) => v.name() == value@,
                None => (forall|v: TaskOutputKind| #[trigger] v.name() != value@),
            },
    {
        let r = if str_eq(value, "text") {
            Some(TaskOutputKind::Text)
        } else if str_eq(value, "patch") {
            Some(TaskOutputKind::Patch)
        } else if str_eq(value, "design") {
            Some(TaskOutputKind::Design)
        } else if str_eq(value, "test") {
            Some(TaskOutputKind::Test)
        } else if str_eq(value, "plan") {
            Some(TaskOutputKind::Plan)
        } else if str_eq(value, "review") {
            Some(TaskOutputKind::Review)
        } else if str_eq(value, "diagnostic") {
            Some(TaskOutputKind::Diagnostic)
        } else if str_eq(value, "artifact") {
            Some(TaskOutputKind::Artifact)
        } else {
            None
        };
        r
    }
}

/// No two values share a name.
pub proof fn task_output_kind_names_differ(a: TaskOutputKind, b: TaskOutputKind)
    requires
        a.name() == b.name(),
    ensures
        a == b,
{
    reveal_strlit("text");
    reveal_strlit("patch");
    reveal_strlit("design");
    reveal_strlit("test");
    reveal_strlit("plan");
    reveal_strlit("review");
    reveal_strlit("diagnostic");
    reveal_strlit("artifact");
    assert("text"@.len() == 4);
    assert("patch"@.len() == 5);
    assert("design"@.len() == 6);
    assert("test"@.len() == 4);
    assert("plan"@.len() == 4);
    assert("review"@.len() == 6);
    assert("diagnostic"@.len() == 10);
    assert("artifact"@.len() == 8);
    assert("text"@[2] != "test"@[2]);
    assert("text"@[0] != "plan"@[0]);
    assert("design"@[0] != "review"@[0]);
    assert("test"@[0] != "plan"@[0]);
}

/// How far a task is.
#[derive(Clone, Copy, Debug, PartialEq, Eq, PartialOrd, Ord, Hash, Structural)]
pub enum TaskNodeState {
    Pending,
    Ready,
    Running,
    Blocked,
    Completed,
    Failed,
    Cancelled,
    Unknown,
}

impl TaskNodeState {
    /// The name on the wire.
    pub open spec fn name(self) -> Seq<char> {
        match self {
            TaskNodeState::Pending => "pending"@,
            TaskNodeState::Ready => "ready"@,
            TaskNodeState::Running => "running"@,
            TaskNodeState::Blocked => "blocked"@,
            TaskNodeState::Completed => "completed"@,
            TaskNodeState::Failed => "failed"@,
            TaskNodeState::Cancelled => "cancelled"@,
            TaskNodeState::Unknown => "unknown"@,
        }
    }

    /// The name on the wire.
    pub fn as_str(self) -> (r: &'static str)
        ensures
            r@ == self.name(),
    {
        match self {
            TaskNodeState::Pending => "pending",
            TaskNodeState::Ready => "ready",
            TaskNodeState::Running => "running",
            TaskNodeState::Blocked => "blocked",
            TaskNodeState::Completed => "completed",
            TaskNodeState::Failed => "failed",
            TaskNodeState::Cancelled => "cancelled",
            TaskNodeState::Unknown => "unknown",
        }
    }

    /// The value with the given name.
    pub fn parse(value: &str) -> (r: Option<TaskNodeState>)
        ensures
            match r {
                Some(v) => v.name() == value@,
                None => (forall|v: TaskNodeState| #[trigger] v.name() != value@),
            },
    {
        let r = if str_eq(value, "pending") {
            Some(TaskNodeState::Pending)
        } else if str_eq(value, "ready") {
            Some(TaskNodeState::Ready)
        } else if str_eq(value, "running") {
            Some(TaskNodeState::Running)
        } else if str_eq(value, "blocked") {
            Some(TaskNodeState::Blocked)
        } else if str_eq(value, "completed") {
            Some(TaskNodeState::Completed)
        } else if str_eq(value, "failed") {
            Some(TaskNodeState::Failed)
        } else if str_eq(value, "cancelled") {
            Some(TaskNodeState::Cancelled)
        } else if str_eq(value, "unknown") {
            Some(TaskNodeState::Unknown)
        } else {
            None
        };
        r
    }
}

/// No two values share a name.
pub proof fn task_node_state_names_differ(a: TaskNodeState, b: TaskNodeState)
    requires
        a.name() == b.name(),
    ensures
        a == b,
{
    reveal_strlit("pending");
    reveal_strlit("ready");
    reveal_strlit("running");
    reveal_strlit("blocked");
    reveal_strlit("completed");
    reveal_strlit("failed");
    reveal_strlit("cancelled");
    reveal_strlit("unknown");
    assert("pending"@.len() == 7);
    assert("ready"@.len() == 5);
    assert("running"@.len() == 7);
    assert("blocked"@.len() == 7);
    assert("completed"@.len() == 9);
    assert("failed"@.len() == 6);
    assert("cancelled"@.len() == 9);
    assert("unknown"@.len() == 7);
    assert("pending"@[0] != "running"@[0]);
    assert("pending"@[0] != "blocked"@[0]);
    assert("pending"@[0] != "unknown"@[0]);
    assert("running"@[0] != "blocked"@[0]);
    assert("running"@[0] != "unknown"@[0]);
    assert("blocked"@[0] != "unknown"@[0]);
    assert("completed"@[1] != "cancelled"@[1]);
}

impl TaskNodeState {
    /// The state follows from those of the dependencies.
    pub open spec fn managed(self) -> bool {
        self == TaskNodeState::Pending || self == TaskNodeState::Ready || self
            == TaskNodeState::Blocked
    }

    /// Whether the state follows from those of the dependencies.
    pub fn is_readiness_managed(self) -> (r: bool)
        ensures
            r == self.managed(),
    {
        match self {
            TaskNodeState::Pending | TaskNodeState::Ready | TaskNodeState::Blocked => true,
            _ => false,
        }
    }

    /// The name in messages.
    pub open spec fn label(self) -> Seq<char> {
        match self {
            TaskNodeState::Pending => "Pending"@,
            TaskNodeState::Ready => "Ready"@,
            TaskNodeState::Running => "Running"@,
            TaskNodeState::Blocked => "Blocked"@,
            TaskNodeState::Completed => "Completed"@,
            TaskNodeState::Failed => "Failed"@,
            TaskNodeState::Cancelled => "Cancelled"@,
            TaskNodeState::Unknown => "Unknown"@,
        }
    }

    fn label_str(self) -> (r: &'static str)
        ensures
            r@ == self.label(),
    {
        match self {
            TaskNodeState::Pending => "Pending",
            TaskNodeState::Ready => "Ready",
            TaskNodeState::Running => "Running",
            TaskNodeState::Blocked => "Blocked",
            TaskNodeState::Completed => "Completed",
            TaskNodeState::Failed => "Failed",
            TaskNodeState::Cancelled => "Cancelled",
            TaskNodeState::Unknown => "Unknown",
        }
    }
}

/// Why a graph or a state is refused.
#[derive(Debug, PartialEq, Eq)]
pub enum OrchestrationError {
    DigestMismatch,
    InvalidGraphRevision,
    InvalidTaskCount,
    InvalidDescription,
    InvalidModelReference,
    InvalidLimits,
    SecretModelContextDenied,
    DuplicateTaskKey(TaskNodeKey),
    UnknownDependency { task_key: TaskNodeKey, dependency: TaskNodeKey },
    SelfDependency { task_key: TaskNodeKey },
    DuplicateDependency { task_key: TaskNodeKey, dependency: TaskNodeKey },
    DuplicateTaskNodeId,
    UnknownTaskNode(TaskNodeId),
    UnknownDependencyId { task_key: TaskNodeKey, dependency_id: TaskNodeId },
    DuplicateDependencyId { task_key: TaskNodeKey, dependency_id: TaskNodeId },
    TooManyDependencies { task_key: TaskNodeKey },
    InvalidDeadline { task_key: TaskNodeKey },
    CycleDetected,
    NoEligibleModel { task_key: TaskNodeKey },
    InvalidTaskState,
    InvalidStateTransition { from: TaskNodeState, to: TaskNodeState },
    RevisionOverflow,
    AttemptOverflow,
    AttemptLimitExceeded,
    IncompleteStateSnapshot,
}

/// The model of an `OrchestrationError`.
pub enum OrchestrationErrorView {
    DigestMismatch,
    InvalidGraphRevision,
    InvalidTaskCount,
    InvalidDescription,
    InvalidModelReference,
    InvalidLimits,
    SecretModelContextDenied,
    DuplicateTaskKey(Seq<char>),
    UnknownDependency { task_key: Seq<char>, dependency: Seq<char> },
    SelfDependency { task_key: Seq<char> },
    DuplicateDependency { task_key: Seq<char>, dependency: Seq<char> },
    DuplicateTaskNodeId,
    UnknownTaskNode(TaskNodeId),
    UnknownDependencyId { task_key: Seq<char>, dependency_id: TaskNodeId },
    DuplicateDependencyId { task_key: Seq<char>, dependency_id: TaskNodeId },
    TooManyDependencies { task_key: Seq<char> },
    InvalidDeadline { task_key: Seq<char> },
    CycleDetected,
    NoEligibleModel { task_key: Seq<char> },
    InvalidTaskState,
    InvalidStateTransition { from: TaskNodeState, to: TaskNodeState },
    RevisionOverflow,
    AttemptOverflow,
    AttemptLimitExceeded,
    IncompleteStateSnapshot,
}

impl View for OrchestrationError {
    type V = OrchestrationErrorView;

    open spec fn view(&self) -> OrchestrationErrorView {
        match *self {
            OrchestrationError::DigestMismatch => OrchestrationErrorView::DigestMismatch,
            OrchestrationError::InvalidGraphRevision => OrchestrationErrorView::InvalidGraphRevision,
            OrchestrationError::InvalidTaskCount => OrchestrationErrorView::InvalidTaskCount,
            OrchestrationError::InvalidDescription => OrchestrationErrorView::InvalidDescription,
            OrchestrationError::InvalidModelReference => OrchestrationErrorView::InvalidModelReference,
            OrchestrationError::InvalidLimits => OrchestrationErrorView::InvalidLimits,
            OrchestrationError::SecretModelContextDenied => OrchestrationErrorView::SecretModelContextDenied,
            OrchestrationError::DuplicateTaskKey(key) => OrchestrationErrorView::DuplicateTaskKey(key@),
            OrchestrationError::UnknownDependency { task_key, dependency } =>
                OrchestrationErrorView::UnknownDependency { task_key: task_key@, dependency: dependency@ },
            OrchestrationError::SelfDependency { task_key } =>
                OrchestrationErrorView::SelfDependency { task_key: task_key@ },
            OrchestrationError::DuplicateDependency { task_key, dependency } =>
                OrchestrationErrorView::DuplicateDependency { task_key: task_key@, dependency: dependency@ },
            OrchestrationError::DuplicateTaskNodeId => OrchestrationErrorView::DuplicateTaskNodeId,
            OrchestrationError::UnknownTaskNode(id) => OrchestrationErrorView::UnknownTaskNode(id),
            OrchestrationError::UnknownDependencyId { task_key, dependency_id } =>
                OrchestrationErrorView::UnknownDependencyId { task_key: task_key@, dependency_id },
            OrchestrationError::DuplicateDependencyId { task_key, dependency_id } =>
                OrchestrationErrorView::DuplicateDependencyId { task_key: task_key@, dependency_id },
            OrchestrationError::TooManyDependencies { task_key } =>
                OrchestrationErrorView::TooManyDependencies { task_key: task_key@ },
            OrchestrationError::InvalidDeadline { task_key } =>
                OrchestrationErrorView::InvalidDeadline { task_key: task_key@ },
            OrchestrationError::CycleDetected => OrchestrationErrorView::CycleDetected,
            OrchestrationError::NoEligibleModel { task_key } =>
                OrchestrationErrorView::NoEligibleModel { task_key: task_key@ },
            OrchestrationError::InvalidTaskState => OrchestrationErrorView::InvalidTaskState,
            OrchestrationError::InvalidStateTransition { from, to } =>
                OrchestrationErrorView::InvalidStateTransition { from, to },
            OrchestrationError::RevisionOverflow => OrchestrationErrorView::RevisionOverflow,
            OrchestrationError::AttemptOverflow => OrchestrationErrorView::AttemptOverflow,
            OrchestrationError::AttemptLimitExceeded => OrchestrationErrorView::AttemptLimitExceeded,
            OrchestrationError::IncompleteStateSnapshot => OrchestrationErrorView::IncompleteStateSnapshot,
        }
    }
}

impl OrchestrationErrorView {
    /// The message of the error.
    pub open spec fn message(self) -> Seq<char> {
        match self {
            OrchestrationErrorView::DigestMismatch => "graph digest does not match immutable graph content"@,
            OrchestrationErrorView::InvalidGraphRevision => "graph revision must be greater than zero"@,
            OrchestrationErrorView::InvalidTaskCount => "task graph must contain between 1 and 256 nodes"@,
            OrchestrationErrorView::InvalidDescription => "task description is invalid"@,
            OrchestrationErrorView::InvalidModelReference => "model profile reference is invalid"@,
            OrchestrationErrorView::InvalidLimits => "task limits must be greater than zero"@,
            OrchestrationErrorView::SecretModelContextDenied =>
                "secret-class data may not be requested as model context"@,
            OrchestrationErrorView::DuplicateTaskKey(key) =>
                "duplicate task key: ProjectionTaskKey("@ + debug_text(key) + ")"@,
            OrchestrationErrorView::UnknownDependency { task_key, dependency } =>
                "unknown dependency ProjectionTaskKey("@ + debug_text(dependency)
                    + ") referenced by ProjectionTaskKey("@ + debug_text(task_key) + ")"@,
            OrchestrationErrorView::SelfDependency { task_key } =>
                "task ProjectionTaskKey("@ + debug_text(task_key) + ") depends on itself"@,
            OrchestrationErrorView::DuplicateDependency { task_key, dependency } =>
                "duplicate dependency ProjectionTaskKey("@ + debug_text(dependency)
                    + ") referenced by ProjectionTaskKey("@ + debug_text(task_key) + ")"@,
            OrchestrationErrorView::DuplicateTaskNodeId => "duplicate task-node ID in stored graph"@,
            OrchestrationErrorView::UnknownTaskNode(id) => "unknown task-node ID: "@ + uuid_text(id.value),
            OrchestrationErrorView::UnknownDependencyId { task_key, dependency_id } =>
                "unknown dependency ID "@ + uuid_text(dependency_id.value)
                    + " referenced by ProjectionTaskKey("@ + debug_text(task_key) + ")"@,
            OrchestrationErrorView::DuplicateDependencyId { task_key, dependency_id } =>
                "duplicate dependency ID "@ + uuid_text(dependency_id.value)
                    + " referenced by ProjectionTaskKey("@ + debug_text(task_key) + ")"@,
            OrchestrationErrorView::TooManyDependencies { task_key } =>
                "task ProjectionTaskKey("@ + debug_text(task_key) + ") exceeds the dependency limit"@,
            OrchestrationErrorView::InvalidDeadline { task_key } =>
                "task ProjectionTaskKey("@ + debug_text(task_key)
                    + ") has a deadline at or before graph creation"@,
            OrchestrationErrorView::CycleDetected => "task graph contains a dependency cycle"@,
            OrchestrationErrorView::NoEligibleModel { task_key } =>
                "no configured model/profile policy can satisfy task ProjectionTaskKey("@
                    + debug_text(task_key) + ")"@,
            OrchestrationErrorView::InvalidTaskState => "task state is invalid"@,
            OrchestrationErrorView::InvalidStateTransition { from, to } =>
                "task-state transition "@ + from.label() + " -> "@ + to.label() + " is invalid"@,
            OrchestrationErrorView::RevisionOverflow => "task-state revision overflow"@,
            OrchestrationErrorView::AttemptOverflow => "task attempt counter overflow"@,
            OrchestrationErrorView::AttemptLimitExceeded => "task attempt limit exceeded"@,
            OrchestrationErrorView::IncompleteStateSnapshot =>
                "task-state snapshot is incomplete or contains extra state"@,
        }
    }
}

impl OrchestrationError {
    /// The message of the error.
    pub fn message(&self) -> (r: String)
        ensures
            r@ == self@.message(),
    {
        match self {
            OrchestrationError::DigestMismatch =>
                "graph digest does not match immutable graph content".to_owned(),
            OrchestrationError::InvalidGraphRevision => "graph revision must be greater than zero".to_owned(),
            OrchestrationError::InvalidTaskCount =>
                "task graph must contain between 1 and 256 nodes".to_owned(),
            OrchestrationError::InvalidDescription => "task description is invalid".to_owned(),
            OrchestrationError::InvalidModelReference => "model profile reference is invalid".to_owned(),
            OrchestrationError::InvalidLimits => "task limits must be greater than zero".to_owned(),
            OrchestrationError::SecretModelContextDenied =>
                "secret-class data may not be requested as model context".to_owned(),
            OrchestrationError::DuplicateTaskKey(key) => {
                let mut out = "duplicate task key: ProjectionTaskKey(".to_owned();
                out.append(debug_string(key.as_str()).as_str());
                out.append(")");
                out
            },
            OrchestrationError::UnknownDependency { task_key, dependency } => {
                let mut out = "unknown dependency ProjectionTaskKey(".to_owned();
                out.append(debug_string(dependency.as_str()).as_str());
                out.append(") referenced by ProjectionTaskKey(");
                out.append(debug_string(task_key.as_str()).as_str());
                out.append(")");
                out
            },
            OrchestrationError::SelfDependency { task_key } => {
                let mut out = "task ProjectionTaskKey(".to_owned();
                out.append(debug_string(task_key.as_str()).as_str());
                out.append(") depends on itself");
                out
            },
            OrchestrationError::DuplicateDependency { task_key, dependency } => {
                let mut out = "duplicate dependency ProjectionTaskKey(".to_owned();
                out.append(debug_string(dependency.as_str()).as_str());
                out.append(") referenced by ProjectionTaskKey(");
                out.append(debug_string(task_key.as_str()).as_str());
                out.append(")");
                out
            },
            OrchestrationError::DuplicateTaskNodeId => "duplicate task-node ID in stored graph".to_owned(),
            OrchestrationError::UnknownTaskNode(id) => {
                let mut out = "unknown task-node ID: ".to_owned();
                out.append(id.to_text().as_str());
                out
            },
            OrchestrationError::UnknownDependencyId { task_key, dependency_id } => {
                let mut out = "unknown dependency ID ".to_owned();
                out.append(dependency_id.to_text().as_str());
                out.append(" referenced by ProjectionTaskKey(");
                out.append(debug_string(task_key.as_str()).as_str());
                out.append(")");
                out
            },
            OrchestrationError::DuplicateDependencyId { task_key, dependency_id } => {
                let mut out = "duplicate dependency ID ".to_owned();
                out.append(dependency_id.to_text().as_str());
                out.append(" referenced by ProjectionTaskKey(");
                out.append(debug_string(task_key.as_str()).as_str());
                out.append(")");
                out
            },
            OrchestrationError::TooManyDependencies { task_key } => {
                let mut out = "task ProjectionTaskKey(".to_owned();
                out.append(debug_string(task_key.as_str()).as_str());
                out.append(") exceeds the dependency limit");
                out
            },
            OrchestrationError::InvalidDeadline { task_key } => {
                let mut out = "task ProjectionTaskKey(".to_owned();
                out.append(debug_string(task_key.as_str()).as_str());
                out.append(") has a deadline at or before graph creation");
                out
            },
            OrchestrationError::CycleDetected => "task graph contains a dependency cycle".to_owned(),
            OrchestrationError::NoEligibleModel { task_key } => {
                let mut out = "no configured model/profile policy can satisfy task ProjectionTaskKey(".to_owned();
                out.append(debug_string(task_key.as_str()).as_str());
                out.append(")");
                out
            },
            OrchestrationError::InvalidTaskState => "task state is invalid".to_owned(),
            OrchestrationError::InvalidStateTransition { from, to } => {
                let mut out = "task-state transition ".to_owned();
                out.append(from.label_str());
                out.append(" -> ");
                out.append(to.label_str());
                out.append(" is invalid");
                out
            },
            OrchestrationError::RevisionOverflow => "task-state revision overflow".to_owned(),
            OrchestrationError::AttemptOverflow => "task attempt counter overflow".to_owned(),
            OrchestrationError::AttemptLimitExceeded => "task attempt limit exceeded".to_owned(),
            OrchestrationError::IncompleteStateSnapshot =>
                "task-state snapshot is incomplete or contains extra state".to_owned(),
        }
    }
}

/// A revision of a profile.
#[derive(Debug, PartialEq, Eq, PartialOrd, Ord, Hash)]
pub struct ModelProfileRef {
    id: ModelProfileId,
    revision: u64,
}

/// The model of a `ModelProfileRef`.
pub struct ProfileRefView {
    pub id: Seq<char>,
    pub revision: u64,
}

impl View for ModelProfileRef {
    type V = ProfileRefView;

    closed spec fn view(&self) -> ProfileRefView {
        ProfileRefView {
            id: self.id@,
            revision: self.revision,
        }
    }
}

impl Clone for ModelProfileRef {
    fn clone(&self) -> (r: ModelProfileRef)
        ensures
            r@ == self@,
    {
        ModelProfileRef {
            id: self.id.clone(),
            revision: self.revision,
        }
    }
}

impl ProfileRefView {
    /// The order of references: by name, then by revision.
    pub open spec fn lt(self, other: ProfileRefView) -> bool {
        text_lt(self.id, other.id) || (self.id == other.id && self.revision < other.revision)
    }

    /// The reference is to this very revision of a profile.
    pub open spec fn names(self, profile: ProfileView) -> bool {
        self.id == profile.id && self.revision == profile.revision
    }

    /// The JSON value.
    pub open spec fn json(self) -> JsonView {
        JsonView::Object(
            no_fields().push(("id"@, JsonView::Str(self.id))).push(
                ("revision"@, JsonView::Int(self.revision as int)),
            ),
        )
    }
}

impl ModelProfileRef {
    /// Checks and takes the parts.
    pub fn new(id: ModelProfileId, revision: u64) -> (r: Result<
        ModelProfileRef,
        OrchestrationError,
    >)
        ensures
            match r {
                Ok(p) => revision > 0 && p@ == (ProfileRefView { id: id@, revision }),
                Err(e) => revision == 0 && e == OrchestrationError::InvalidModelReference,
            },
    {
        if revision == 0 {
            return Err(OrchestrationError::InvalidModelReference);
        }
        Ok(ModelProfileRef { id, revision })
    }

    /// The reference to a profile.
    pub fn from_profile(profile: &ModelProfile) -> (r: ModelProfileRef)
        ensures
            r@.names(profile@),
    {
        ModelProfileRef { id: profile.id().clone(), revision: profile.revision() }
    }

    /// Whether the reference is to this very revision of a profile.
    pub fn matches(&self, profile: &ModelProfile) -> (r: bool)
        ensures
            r == self@.names(profile@),
    {
        str_eq(self.id.as_str(), profile.id().as_str()) && self.revision == profile.revision()
    }

    fn before(&self, other: &ModelProfileRef) -> (r: bool)
        ensures
            r == self@.lt(other@),
    {
        str_lt(self.id.as_str(), other.id.as_str()) || (str_eq(
            self.id.as_str(),
            other.id.as_str(),
        ) && self.revision < other.revision)
    }

    fn to_json(&self) -> (r: Json)
        ensures
            r@ == self@.json(),
    {
        let mut m = no_members();
        put(&mut m, "id", string(self.id.as_str()));
        put(&mut m, "revision", Json::UInt(self.revision));
        object(m)
    }
}

/// The references ascend: each stands once.
pub open spec fn refs_ascend(v: Seq<ProfileRefView>) -> bool {
    forall|i: int, j: int| #![trigger v[i], v[j]] 0 <= i < j < v.len() ==> v[i].lt(v[j])
}

/// The first position, from `i` on, whose reference is not less.
pub open spec fn ref_slot(v: Seq<ProfileRefView>, x: ProfileRefView, i: int) -> int
    decreases v.len() - i,
{
    if 0 <= i < v.len() && v[i].lt(x) {
        ref_slot(v, x, i + 1)
    } else {
        i
    }
}

/// The ascending list with `x` in its place.
pub open spec fn with_ref(v: Seq<ProfileRefView>, x: ProfileRefView) -> Seq<ProfileRefView> {
    let at = ref_slot(v, x, 0);
    if at < v.len() && v[at] == x {
        v
    } else {
        v.insert(at, x)
    }
}

/// The references in ascending order, each once.
pub open spec fn ref_set(v: Seq<ProfileRefView>) -> Seq<ProfileRefView>
    decreases v.len(),
{
    if v.len() == 0 {
        v
    } else {
        with_ref(ref_set(v.drop_last()), v.last())
    }
}

proof fn ref_slot_parts(v: Seq<ProfileRefView>, x: ProfileRefView, i: int)
    requires
        0 <= i <= v.len(),
    ensures
        i <= ref_slot(v, x, i) <= v.len(),
        forall|k: int| i <= k < ref_slot(v, x, i) ==> (#[trigger] v[k]).lt(x),
        ref_slot(v, x, i) < v.len() ==> !v[ref_slot(v, x, i)].lt(x),
    decreases v.len() - i,
{
    if i < v.len() && v[i].lt(x) {
        ref_slot_parts(v, x, i + 1);
    }
}

proof fn ref_order(a: ProfileRefView, b: ProfileRefView, c: ProfileRefView)
    ensures
        !a.lt(a),
        a.lt(b) && b.lt(c) ==> a.lt(c),
        a != b ==> a.lt(b) || b.lt(a),
{
    text_lt_irreflexive(a.id);
    if a.id != b.id {
        text_lt_total(a.id, b.id);
    }
    if text_lt(a.id, b.id) && text_lt(b.id, c.id) {
        text_lt_transitive(a.id, b.id, c.id);
    }
}

/// The set of some references ascends and holds these references.
pub proof fn ref_set_members(v: Seq<ProfileRefView>)
    ensures
        refs_ascend(ref_set(v)),
        forall|x: ProfileRefView| #[trigger] ref_set(v).contains(x) <==> v.contains(x),
    decreases v.len(),
{
    if v.len() > 0 {
        let h = ref_set(v.drop_last());
        let x = v.last();
        ref_set_members(v.drop_last());
        ref_slot_parts(h, x, 0);
        let at = ref_slot(h, x, 0);
        let r = ref_set(v);
        if !(at < h.len() && h[at] == x) {
            assert(r == h.insert(at, x));
            if at < h.len() {
                ref_order(h[at], x, x);
            }
            assert forall|i: int, j: int|
                #![trigger r[i], r[j]]
                0 <= i < j < r.len() implies r[i].lt(r[j]) by {
                if j < at {
                    assert(h[i].lt(h[j]));
                } else if j == at {
                    assert(h[i].lt(x));
                } else if i < at {
                    assert(h[i].lt(h[j - 1]));
                } else if i == at {
                    if j - 1 > at {
                        assert(h[at].lt(h[j - 1]));
                        ref_order(x, h[at], h[j - 1]);
                    }
                } else {
                    assert(h[i - 1].lt(h[j - 1]));
                }
            }
        }
        assert forall|y: ProfileRefView| #[trigger] r.contains(y) <==> v.contains(y) by {
            let head = v.drop_last();
            assert(v[v.len() - 1] == x);
            if v.contains(y) && y != x {
                let k = choose|k: int| 0 <= k < v.len() && v[k] == y;
                assert(head[k] == y);
                assert(head.contains(y));
            }
            if head.contains(y) {
                let k = choose|k: int| 0 <= k < head.len() && head[k] == y;
                assert(v[k] == y);
            }
            assert(h.contains(y) <==> head.contains(y));
            if at < h.len() && h[at] == x {
                assert(h.contains(x));
            } else {
                assert(r[at] == x);
                if h.contains(y) {
                    let k = choose|k: int| 0 <= k < h.len() && h[k] == y;
                    if k < at {
                        assert(r[k] == y);
                    } else {
                        assert(r[k + 1] == y);
                    }
                }
                if r.contains(y) && y != x {
                    let k = choose|k: int| 0 <= k < r.len() && r[k] == y;
                    if k < at {
                        assert(h[k] == y);
                    } else {
                        assert(h[k - 1] == y);
                    }
                }
            }
        }
    }
}

fn add_ref(v: &mut Vec<ModelProfileRef>, x: ModelProfileRef)
    ensures
        views(final(v)@) == with_ref(views(old(v)@), x@),
{
    let ghost before = views(v@);
    let ghost xv = x@;
    let mut at: usize = 0;
    proof {
        ref_slot_parts(before, xv, 0);
    }
    while at < v.len() && v[at].before(&x)
        invariant
            at <= v@.len(),
            before == views(v@),
            v@ == old(v)@,
            xv == x@,
            ref_slot(before, xv, 0) == ref_slot(before, xv, at as int),
        decreases v@.len() - at,
    {
        proof {
            assert(before[at as int] == v@[at as int]@);
        }
        at += 1;
    }
    proof {
        if at < v@.len() {
            assert(before[at as int] == v@[at as int]@);
        }
    }
    if at < v.len() && str_eq(v[at].id.as_str(), x.id.as_str()) && v[at].revision == x.revision {
        return;
    }
    v.insert(at, x);
    proof {
        assert(views(v@) =~= before.insert(at as int, xv));
    }
}

fn collect_refs(list: Vec<ModelProfileRef>) -> (r: Vec<ModelProfileRef>)
    ensures
        views(r@) == ref_set(views(list@)),
{
    let ghost all = views(list@);
    let mut out: Vec<ModelProfileRef> = Vec::new();
    let mut i: usize = 0;
    proof {
        assert(all.take(0) =~= Seq::<ProfileRefView>::empty());
        assert(views(out@) =~= ref_set(all.take(0)));
    }
    while i < list.len()
        invariant
            i <= list@.len(),
            all == views(list@),
            views(out@) == ref_set(all.take(i as int)),
        decreases list@.len() - i,
    {
        proof {
            assert(all.take(i + 1).drop_last() =~= all.take(i as int));
            assert(all.take(i + 1).last() == list@[i as int]@);
        }
        add_ref(&mut out, list[i].clone());
        i += 1;
    }
    proof {
        assert(all.take(i as int) =~= all);
    }
    out
}

/// What a task needs of a model.
#[derive(Debug, PartialEq, Eq)]
pub struct TaskRequirements {
    required_model_capabilities: ModelCapabilities,
    allowed_model_profiles: Vec<ModelProfileRef>,
    data_class: DataClass,
    required_compartments: TextSet,
    required_tools: TextSet,
}

/// The model of a `TaskRequirements`.
pub struct RequirementsView {
    pub required_model_capabilities: Set<ModelCapability>,
    pub allowed_model_profiles: Seq<ProfileRefView>,
    pub data_class: DataClass,
    pub required_compartments: Seq<Seq<char>>,
    pub required_tools: Seq<Seq<char>>,
}

impl View for TaskRequirements {
    type V = RequirementsView;

    closed spec fn view(&self) -> RequirementsView {
        RequirementsView {
            required_model_capabilities: self.required_model_capabilities@,
            allowed_model_profiles: views(self.allowed_model_profiles@),
            data_class: self.data_class,
            required_compartments: self.required_compartments@,
            required_tools: self.required_tools@,
        }
    }
}

impl Clone for TaskRequirements {
    fn clone(&self) -> (r: TaskRequirements)
        ensures
            r@ == self@,
    {
        let mut refs: Vec<ModelProfileRef> = Vec::new();
        let mut i: usize = 0;
        while i < self.allowed_model_profiles.len()
            invariant
                i <= self.allowed_model_profiles@.len(),
                refs@.len() == i,
                forall|k: int|
                    0 <= k < i ==> (#[trigger] refs@[k])@ == self.allowed_model_profiles@[k]@,
            decreases self.allowed_model_profiles@.len() - i,
        {
            refs.push(self.allowed_model_profiles[i].clone());
            i += 1;
        }
        proof {
            assert(views(refs@) =~= views(self.allowed_model_profiles@));
        }
        TaskRequirements {
            required_model_capabilities: self.required_model_capabilities.clone(),
            allowed_model_profiles: refs,
            data_class: self.data_class,
            required_compartments: self.required_compartments.clone(),
            required_tools: self.required_tools.clone(),
        }
    }
}

/// The JSON values of some capabilities.
pub open spec fn capability_items(c: Seq<ModelCapability>) -> Seq<JsonView> {
    c.map_values(|x: ModelCapability| JsonView::Str(x.name()))
}

/// The JSON values of some references.
pub open spec fn ref_items(c: Seq<ProfileRefView>) -> Seq<JsonView> {
    c.map_values(|x: ProfileRefView| x.json())
}

impl RequirementsView {
    /// What is wrong with the requirements.
    pub open spec fn flaw(self) -> Option<OrchestrationErrorView> {
        if self.data_class == DataClass::Secret {
            Some(OrchestrationErrorView::SecretModelContextDenied)
        } else if exists|i: int|
            0 <= i < self.allowed_model_profiles.len() && (
            #[trigger] self.allowed_model_profiles[i]).revision == 0 {
            Some(OrchestrationErrorView::InvalidModelReference)
        } else {
            None
        }
    }

    /// The JSON value.
    pub open spec fn json(self) -> JsonView {
        JsonView::Object(
            no_fields().push(
                (
                    "required_model_capabilities"@,
                    JsonView::Array(capability_items(in_order(self.required_model_capabilities))),
                ),
            ).push(
                (
                    "allowed_model_profiles"@,
                    JsonView::Array(ref_items(self.allowed_model_profiles)),
                ),
            ).push(("data_class"@, JsonView::Str(class_name(self.data_class)))).push(
                ("required_compartments"@, JsonView::Array(text_items(self.required_compartments))),
            ).push(("required_tools"@, JsonView::Array(text_items(self.required_tools)))),
        )
    }
}

/// The model of a check.
pub open spec fn flaw_of(r: Result<(), OrchestrationError>) -> Option<OrchestrationErrorView> {
    match r {
        Ok(()) => None,
        Err(e) => Some(e@),
    }
}

impl TaskRequirements {
    /// Checks and takes the parts.
    pub fn new(
        required_model_capabilities: ModelCapabilities,
        allowed_model_profiles: Vec<ModelProfileRef>,
        data_class: DataClass,
        required_compartments: Vec<CompartmentId>,
        required_tools: Vec<ActionKind>,
    ) -> (r: Result<TaskRequirements, OrchestrationError>)
        ensures
            ({
                let v = RequirementsView {
                    required_model_capabilities: required_model_capabilities@,
                    allowed_model_profiles: ref_set(views(allowed_model_profiles@)),
                    data_class,
                    required_compartments: text_set(views(required_compartments@)),
                    required_tools: text_set(views(required_tools@)),
                };
                match r {
                    Ok(q) => v.flaw() is None && q@ == v,
                    Err(e) => v.flaw() == Some(e@),
                }
            }),
    {
        let mut c: Vec<String> = Vec::new();
        let mut i: usize = 0;
        while i < required_compartments.len()
            invariant
                i <= required_compartments@.len(),
                c@.len() == i,
                forall|k: int| 0 <= k < i ==> (#[trigger] c@[k])@ == required_compartments@[k]@,
            decreases required_compartments@.len() - i,
        {
            c.push(required_compartments[i].as_str().to_owned());
            i += 1;
        }
        let mut t: Vec<String> = Vec::new();
        let mut j: usize = 0;
        while j < required_tools.len()
            invariant
                j <= required_tools@.len(),
                t@.len() == j,
                forall|k: int| 0 <= k < j ==> (#[trigger] t@[k])@ == required_tools@[k]@,
            decreases required_tools@.len() - j,
        {
            t.push(required_tools[j].as_str().to_owned());
            j += 1;
        }
        proof {
            assert(texts(c@) =~= views(required_compartments@));
            assert(texts(t@) =~= views(required_tools@));
        }
        let value = TaskRequirements {
            required_model_capabilities,
            allowed_model_profiles: collect_refs(allowed_model_profiles),
            data_class,
            required_compartments: TextSet::from_list(c),
            required_tools: TextSet::from_list(t),
        };
        match value.validate() {
            Ok(()) => Ok(value),
            Err(e) => Err(e),
        }
    }

    /// What the model must be able to do.
    pub fn required_model_capabilities(&self) -> (r: &ModelCapabilities)
        ensures
            r@ == self@.required_model_capabilities,
    {
        &self.required_model_capabilities
    }

    /// The profiles that may be used; all, if there are none.
    pub fn allowed_model_profiles(&self) -> (r: &Vec<ModelProfileRef>)
        ensures
            views(r@) == self@.allowed_model_profiles,
    {
        &self.allowed_model_profiles
    }

    /// How sensitive the data is.
    pub fn data_class(&self) -> (r: DataClass)
        ensures
            r == self@.data_class,
    {
        self.data_class
    }

    /// The compartments that the model must be allowed to see.
    pub fn required_compartments(&self) -> (r: &TextSet)
        ensures
            r@ == self@.required_compartments,
    {
        &self.required_compartments
    }

    /// The tools that are needed.
    pub fn required_tools(&self) -> (r: &TextSet)
        ensures
            r@ == self@.required_tools,
    {
        &self.required_tools
    }

    fn validate(&self) -> (r: Result<(), OrchestrationError>)
        ensures
            flaw_of(r) == self@.flaw(),
    {
        if self.data_class == DataClass::Secret {
            return Err(OrchestrationError::SecretModelContextDenied);
        }
        let ghost all = self@.allowed_model_profiles;
        let mut i: usize = 0;
        while i < self.allowed_model_profiles.len()
            invariant
                i <= self.allowed_model_profiles@.len(),
                all == self@.allowed_model_profiles,
                all == views(self.allowed_model_profiles@),
                self@.data_class != DataClass::Secret,
                forall|k: int| 0 <= k < i ==> (#[trigger] all[k]).revision != 0,
            decreases self.allowed_model_profiles@.len() - i,
        {
            proof {
                assert(all[i as int] == self.allowed_model_profiles@[i as int]@);
            }
            if self.allowed_model_profiles[i].revision == 0 {
                return Err(OrchestrationError::InvalidModelReference);
            }
            i += 1;
        }
        Ok(())
    }

    fn to_json(&self) -> (r: Json)
        ensures
            r@ == self@.json(),
    {
        let list = self.required_model_capabilities.iter();
        let mut caps: Vec<Json> = Vec::new();
        let mut i: usize = 0;
        while i < list.len()
            invariant
                i <= list@.len(),
                caps@.len() == i,
                forall|k: int|
                    0 <= k < i ==> (#[trigger] caps@[k])@ == JsonView::Str(list@[k].name()),
            decreases list@.len() - i,
        {
            caps.push(string(list[i].as_str()));
            i += 1;
        }
        let mut refs: Vec<Json> = Vec::new();
        let mut j: usize = 0;
        while j < self.allowed_model_profiles.len()
            invariant
                j <= self.allowed_model_profiles@.len(),
                refs@.len() == j,
                forall|k: int|
                    0 <= k < j ==> (#[trigger] refs@[k])@
                        == self.allowed_model_profiles@[k]@.json(),
            decreases self.allowed_model_profiles@.len() - j,
        {
            refs.push(self.allowed_model_profiles[j].to_json());
            j += 1;
        }
        proof {
            assert(item_models(caps@) =~= capability_items(list@));
            assert(item_models(refs@) =~= ref_items(self@.allowed_model_profiles));
        }
        let mut m = no_members();
        put(&mut m, "required_model_capabilities", array(caps));
        put(&mut m, "allowed_model_profiles", array(refs));
        put(&mut m, "data_class", string(data_class_str(self.data_class)));
        put(&mut m, "required_compartments", text_set_json(&self.required_compartments));
        put(&mut m, "required_tools", text_set_json(&self.required_tools));
        object(m)
    }
}

/// How much a task may use.
#[derive(Clone, Copy, Debug, PartialEq, Eq, Structural)]
pub struct TaskNodeLimits {
    pub max_input_tokens: u64,
    pub max_output_tokens: u64,
    pub max_attempts: u32,
}

impl TaskNodeLimits {
    /// What is wrong with the limits.
    pub open spec fn flaw(self) -> Option<OrchestrationErrorView> {
        if self.max_input_tokens == 0 || self.max_output_tokens == 0 || self.max_attempts == 0 {
            Some(OrchestrationErrorView::InvalidLimits)
        } else {
            None
        }
    }

    /// The JSON value.
    pub open spec fn json(self) -> JsonView {
        JsonView::Object(
            no_fields().push(("max_input_tokens"@, JsonView::Int(self.max_input_tokens as int))).push(
                ("max_output_tokens"@, JsonView::Int(self.max_output_tokens as int)),
            ).push(("max_attempts"@, JsonView::Int(self.max_attempts as int))),
        )
    }

    /// Checks and takes the parts.
    pub fn new(max_input_tokens: u64, max_output_tokens: u64, max_attempts: u32) -> (r: Result<
        TaskNodeLimits,
        OrchestrationError,
    >)
        ensures
            ({
                let v = TaskNodeLimits { max_input_tokens, max_output_tokens, max_attempts };
                match r {
                    Ok(l) => v.flaw() is None && l == v,
                    Err(e) => v.flaw() == Some(e@),
                }
            }),
    {
        let value = TaskNodeLimits { max_input_tokens, max_output_tokens, max_attempts };
        match value.validate() {
            Ok(()) => Ok(value),
            Err(e) => Err(e),
        }
    }

    /// The most tokens that may go in.
    pub fn max_input_tokens(self) -> (r: u64)
        ensures
            r == self.max_input_tokens,
    {
        self.max_input_tokens
    }

    /// The most tokens that may come out.
    pub fn max_output_tokens(self) -> (r: u64)
        ensures
            r == self.max_output_tokens,
    {
        self.max_output_tokens
    }

    /// The most attempts.
    pub fn max_attempts(self) -> (r: u32)
        ensures
            r == self.max_attempts,
    {
        self.max_attempts
    }

    fn validate(self) -> (r: Result<(), OrchestrationError>)
        ensures
            flaw_of(r) == self.flaw(),
    {
        if self.max_input_tokens == 0 || self.max_output_tokens == 0 || self.max_attempts == 0 {
            return Err(OrchestrationError::InvalidLimits);
        }
        Ok(())
    }

    fn to_json(self) -> (r: Json)
        ensures
            r@ == self.json(),
    {
        let mut m = no_members();
        put(&mut m, "max_input_tokens", Json::UInt(self.max_input_tokens));
        put(&mut m, "max_output_tokens", Json::UInt(self.max_output_tokens));
        put(&mut m, "max_attempts", Json::UInt(self.max_attempts as u64));
        object(m)
    }
}

/// A description: not blank, not too long, and with no control characters but
/// line feeds and tabs.
pub open spec fn description_ok(s: Seq<char>) -> bool {
    &&& byte_len(s) <= MAX_TASK_DESCRIPTION_BYTES
    &&& exists|i: int| 0 <= i < s.len() && !is_whitespace_char(#[trigger] s[i])
    &&& forall|i: int|
        0 <= i < s.len() && is_control(#[trigger] s[i]) ==> s[i] == '\n' || s[i] == '\t'
}

/// What is wrong with a description.
pub open spec fn description_flaw(s: Seq<char>) -> Option<OrchestrationErrorView> {
    if description_ok(s) {
        None
    } else {
        Some(OrchestrationErrorView::InvalidDescription)
    }
}

fn validate_description(value: &str) -> (r: Result<(), OrchestrationError>)
    ensures
        flaw_of(r) == description_flaw(value@),
{
    if str_byte_len(value) > MAX_TASK_DESCRIPTION_BYTES {
        return Err(OrchestrationError::InvalidDescription);
    }
    let c = to_chars(value);
    let mut blank = true;
    let mut i: usize = 0;
    while i < c.len()
        invariant
            i <= c@.len(),
            c@ == value@,
            blank <==> forall|k: int| 0 <= k < i ==> is_whitespace_char(#[trigger] value@[k]),
            forall|k: int|
                0 <= k < i && is_control(#[trigger] value@[k]) ==> value@[k] == '\n' || value@[k]
                    == '\t',
        decreases c@.len() - i,
    {
        let x = c[i];
        let control = x < ' ' || ('\u{7f}' <= x && x <= '\u{9f}');
        if control && x != '\n' && x != '\t' {
            proof {
                assert(is_control(value@[i as int]));
            }
            return Err(OrchestrationError::InvalidDescription);
        }
        if !x.is_whitespace() {
            proof {
                assert(!is_whitespace_char(value@[i as int]));
            }
            blank = false;
        }
        i += 1;
    }
    if blank {
        return Err(OrchestrationError::InvalidDescription);
    }
    Ok(())
}

/// A node that is proposed for a graph.
#[derive(Clone, Debug, PartialEq, Eq)]
pub struct TaskNodeProposal {
    key: TaskNodeKey,
    description: String,
    expected_output: TaskOutputKind,
    depends_on: Vec<TaskNodeKey>,
    requirements: TaskRequirements,
    limits: TaskNodeLimits,
    deadline_at: Option<TimestampMillis>,
}

/// The model of a `TaskNodeProposal`.
pub struct NodeProposalView {
    pub key: Seq<char>,
    pub description: Seq<char>,
    pub expected_output: TaskOutputKind,
    pub depends_on: Seq<Seq<char>>,
    pub requirements: RequirementsView,
    pub limits: TaskNodeLimits,
    pub deadline_at: Option<TimestampMillis>,
}

impl View for TaskNodeProposal {
    type V = NodeProposalView;

    closed spec fn view(&self) -> NodeProposalView {
        NodeProposalView {
            key: self.key@,
            description: self.description@,
            expected_output: self.expected_output,
            depends_on: views(self.depends_on@),
            requirements: self.requirements@,
            limits: self.limits,
            deadline_at: self.deadline_at,
        }
    }
}

impl NodeProposalView {
    /// What is wrong with the node.
    pub open spec fn flaw(self) -> Option<OrchestrationErrorView> {
        if description_flaw(self.description) is Some {
            description_flaw(self.description)
        } else if self.requirements.flaw() is Some {
            self.requirements.flaw()
        } else if self.limits.flaw() is Some {
            self.limits.flaw()
        } else if self.depends_on.len() > MAX_DEPENDENCIES_PER_NODE {
            Some(OrchestrationErrorView::TooManyDependencies { task_key: self.key })
        } else {
            None
        }
    }
}

impl TaskNodeProposal {
    /// Checks and takes the parts.
    pub fn new(
        key: TaskNodeKey,
        description: String,
        expected_output: TaskOutputKind,
        depends_on: Vec<TaskNodeKey>,
        requirements: TaskRequirements,
        limits: TaskNodeLimits,
        deadline_at: Option<TimestampMillis>,
    ) -> (r: Result<TaskNodeProposal, OrchestrationError>)
        ensures
            ({
                let v = NodeProposalView {
                    key: key@,
                    description: description@,
                    expected_output,
                    depends_on: views(depends_on@),
                    requirements: requirements@,
                    limits,
                    deadline_at,
                };
                match r {
                    Ok(p) => v.flaw() is None && p@ == v,
                    Err(e) => v.flaw() == Some(e@),
                }
            }),
    {
        let value = TaskNodeProposal {
            key,
            description,
            expected_output,
            depends_on,
            requirements,
            limits,
            deadline_at,
        };
        match value.validate() {
            Ok(()) => Ok(value),
            Err(e) => Err(e),
        }
    }

    fn validate(&self) -> (r: Result<(), OrchestrationError>)
        ensures
            flaw_of(r) == self@.flaw(),
    {
        match validate_description(self.description.as_str()) {
            Ok(()) => {},
            Err(e) => {
                return Err(e);
            },
        }
        match self.requirements.validate() {
            Ok(()) => {},
            Err(e) => {
                return Err(e);
            },
        }
        match self.limits.validate() {
            Ok(()) => {},
            Err(e) => {
                return Err(e);
            },
        }
        if self.depends_on.len() > MAX_DEPENDENCIES_PER_NODE {
            return Err(OrchestrationError::TooManyDependencies { task_key: self.key.clone() });
        }
        Ok(())
    }
}

/// A graph that is proposed.
#[derive(Clone, Debug, PartialEq, Eq)]
pub struct TaskGraphProposal {
    nodes: Vec<TaskNodeProposal>,
}

impl View for TaskGraphProposal {
    type V = Seq<NodeProposalView>;

    closed spec fn view(&self) -> Seq<NodeProposalView> {
        views(self.nodes@)
    }
}

impl TaskGraphProposal {
    /// A graph of the given nodes.
    pub fn new(nodes: Vec<TaskNodeProposal>) -> (r: TaskGraphProposal)
        ensures
            r@ == views(nodes@),
    {
        TaskGraphProposal { nodes }
    }
}

/// A node of a graph.
#[derive(Debug, PartialEq, Eq)]
pub struct TaskNode {
    id: TaskNodeId,
    key: TaskNodeKey,
    description: String,
    expected_output: TaskOutputKind,
    requirements: TaskRequirements,
    limits: TaskNodeLimits,
    deadline_at: Option<TimestampMillis>,
}

/// The model of a `TaskNode`.
pub struct NodeView {
    pub id: TaskNodeId,
    pub key: Seq<char>,
    pub description: Seq<char>,
    pub expected_output: TaskOutputKind,
    pub requirements: RequirementsView,
    pub limits: TaskNodeLimits,
    pub deadline_at: Option<TimestampMillis>,
}

impl View for TaskNode {
    type V = NodeView;

    closed spec fn view(&self) -> NodeView {
        NodeView {
            id: self.id,
            key: self.key@,
            description: self.description@,
            expected_output: self.expected_output,
            requirements: self.requirements@,
            limits: self.limits,
            deadline_at: self.deadline_at,
        }
    }
}

impl Clone for TaskNode {
    fn clone(&self) -> (r: TaskNode)
        ensures
            r@ == self@,
    {
        TaskNode {
            id: self.id,
            key: self.key.clone(),
            description: self.description.clone(),
            expected_output: self.expected_output,
            requirements: self.requirements.clone(),
            limits: self.limits,
            deadline_at: self.deadline_at,
        }
    }
}

impl NodeView {
    /// What is wrong with the node.
    pub open spec fn flaw(self) -> Option<OrchestrationErrorView> {
        if description_flaw(self.description) is Some {
            description_flaw(self.description)
        } else if self.requirements.flaw() is Some {
            self.requirements.flaw()
        } else {
            self.limits.flaw()
        }
    }
}

impl TaskNode {
    /// Checks and takes the parts.
    pub fn new(
        id: TaskNodeId,
        key: TaskNodeKey,
        description: String,
        expected_output: TaskOutputKind,
        requirements: TaskRequirements,
        limits: TaskNodeLimits,
        deadline_at: Option<TimestampMillis>,
    ) -> (r: Result<TaskNode, OrchestrationError>)
        ensures
            ({
                let v = NodeView {
                    id,
                    key: key@,
                    description: description@,
                    expected_output,
                    requirements: requirements@,
                    limits,
                    deadline_at,
                };
                match r {
                    Ok(n) => v.flaw() is None && n@ == v,
                    Err(e) => v.flaw() == Some(e@),
                }
            }),
    {
        let value = TaskNode {
            id,
            key,
            description,
            expected_output,
            requirements,
            limits,
            deadline_at,
        };
        match value.validate() {
            Ok(()) => Ok(value),
            Err(e) => Err(e),
        }
    }

    fn validate(&self) -> (r: Result<(), OrchestrationError>)
        ensures
            flaw_of(r) == self@.flaw(),
    {
        match validate_description(self.description.as_str()) {
            Ok(()) => {},
            Err(e) => {
                return Err(e);
            },
        }
        match self.requirements.validate() {
            Ok(()) => {},
            Err(e) => {
                return Err(e);
            },
        }
        self.limits.validate()
    }

    /// The identity.
    pub fn id(&self) -> (r: TaskNodeId)
        ensures
            r == self@.id,
    {
        self.id
    }

    /// The name in the graph.
    pub fn key(&self) -> (r: &TaskNodeKey)
        ensures
            r@ == self@.key,
    {
        &self.key
    }

    /// What is to be done.
    pub fn description(&self) -> (r: &str)
        ensures
            r@ == self@.description,
    {
        self.description.as_str()
    }

    /// What is to come out.
    pub fn expected_output(&self) -> (r: TaskOutputKind)
        ensures
            r == self@.expected_output,
    {
        self.expected_output
    }

    /// What it needs of a model.
    pub fn requirements(&self) -> (r: &TaskRequirements)
        ensures
            r@ == self@.requirements,
    {
        &self.requirements
    }

    /// How much it may use.
    pub fn limits(&self) -> (r: TaskNodeLimits)
        ensures
            r == self@.limits,
    {
        self.limits
    }

    /// When it must be done.
    pub fn deadline_at(&self) -> (r: Option<TimestampMillis>)
        ensures
            r == self@.deadline_at,
    {
        self.deadline_at
    }
}

/// Requirements are in order exactly if the data is not secret and each profile
/// that is listed has a revision; limits exactly if none of them is zero.
pub proof fn needs_in_order_can_be_met(r: RequirementsView, l: TaskNodeLimits)
    ensures
        r.flaw() is None <==> r.data_class != DataClass::Secret && forall|i: int|
            0 <= i < r.allowed_model_profiles.len() ==> (
            #[trigger] r.allowed_model_profiles[i]).revision > 0,
        l.flaw() is None <==> l.max_input_tokens > 0 && l.max_output_tokens > 0 && l.max_attempts
            > 0,
{
}

/// The value of some requirements holds all of them: the capabilities, the
/// profiles, the class, the compartments and the tools.
pub proof fn requirement_values_are_told_apart(a: RequirementsView, b: RequirementsView)
    requires
        a.json() == b.json(),
    ensures
        a == b,
{
    let x = a.json()->Object_0;
    let y = b.json()->Object_0;
    assert(x[0].1 == y[0].1);
    assert(x[1].1 == y[1].1);
    assert(x[2].1 == y[2].1);
    assert(x[3].1 == y[3].1);
    assert(x[4].1 == y[4].1);
    capability_items_are_told_apart(
        in_order(a.required_model_capabilities),
        in_order(b.required_model_capabilities),
    );
    in_order_is_ranked(a.required_model_capabilities);
    in_order_is_ranked(b.required_model_capabilities);
    ref_items_are_told_apart(a.allowed_model_profiles, b.allowed_model_profiles);
    class_names_differ(a.data_class, b.data_class);
    text_items_are_told_apart(a.required_compartments, b.required_compartments);
    text_items_are_told_apart(a.required_tools, b.required_tools);
}

proof fn capability_items_are_told_apart(a: Seq<ModelCapability>, b: Seq<ModelCapability>)
    requires
        capability_items(a) == capability_items(b),
    ensures
        a == b,
{
    let x = capability_items(a);
    let y = capability_items(b);
    assert(x.len() == a.len() && y.len() == b.len());
    assert forall|i: int| 0 <= i < a.len() implies #[trigger] a[i] == b[i] by {
        assert(x[i] == y[i]);
        assert(x[i] == JsonView::Str(a[i].name()));
        assert(y[i] == JsonView::Str(b[i].name()));
        model_capability_names_differ(a[i], b[i]);
    }
    assert(a =~= b);
}

proof fn ref_items_are_told_apart(a: Seq<ProfileRefView>, b: Seq<ProfileRefView>)
    requires
        ref_items(a) == ref_items(b),
    ensures
        a == b,
{
    let x = ref_items(a);
    let y = ref_items(b);
    assert(x.len() == a.len() && y.len() == b.len());
    assert forall|i: int| 0 <= i < a.len() implies #[trigger] a[i] == b[i] by {
        assert(x[i] == y[i]);
        assert(x[i] == a[i].json());
        assert(y[i] == b[i].json());
        assert(a[i].json()->Object_0[0].1 == b[i].json()->Object_0[0].1);
        assert(a[i].json()->Object_0[1].1 == b[i].json()->Object_0[1].1);
    }
    assert(a =~= b);
}

/// The value of some limits holds all of them.
pub proof fn limit_values_are_told_apart(a: TaskNodeLimits, b: TaskNodeLimits)
    requires
        a.json() == b.json(),
    ensures
        a == b,
{
    let x = a.json()->Object_0;
    let y = b.json()->Object_0;
    assert(x[0].1 == y[0].1);
    assert(x[1].1 == y[1].1);
    assert(x[2].1 == y[2].1);
}

/// A node is in order exactly if its description, its requirements and its
/// limits are; a proposal is, if besides it names no more tasks to wait for than
/// a node may have.
pub proof fn nodes_in_order_are_so_in_every_part(n: NodeView, p: NodeProposalView)
    ensures
        n.flaw() is None <==> description_ok(n.description) && n.requirements.flaw() is None
            && n.limits.flaw() is None,
        p.flaw() is None <==> description_ok(p.description) && p.requirements.flaw() is None
            && p.limits.flaw() is None && p.depends_on.len() <= MAX_DEPENDENCIES_PER_NODE,
{
}

} // verus!
