//! Audit records, each bound to the one before it.

use crate::action::CanonicalValue;
use crate::approval::TimestampMillis;
use crate::digest::{sha256_hex_str, text_digest};
use crate::identity::WorkspaceId;
use crate::ids::{random_uuid, uuid_text, uuid_text_is_injective, uuid_to_text};
use crate::json::{
    array, item_models, no_fields, no_members, object, plain, put, string, Json, JsonView,
};
use crate::text::{concat, decimal_int, digest_shaped, i64_text, is_digest, str_eq, surround};
use vstd::prelude::*;

verus! {

/// Why a stored value is refused.
#[derive(Clone, Debug, PartialEq, Eq)]
pub enum AuditValueError {
    UnknownEventKind(String),
    UnknownOutcome(String),
    InvalidHash,
    InvalidUuid,
    InvalidPayload,
}

impl AuditValueError {
    /// The message of the error.
    pub open spec fn text(self) -> Seq<char> {
        match self {
            AuditValueError::UnknownEventKind(s) => "unknown audit event kind: "@ + s@,
            AuditValueError::UnknownOutcome(s) => "unknown audit outcome: "@ + s@,
            AuditValueError::InvalidHash =>
                "audit hash must contain 64 lowercase hexadecimal characters"@,
            AuditValueError::InvalidUuid => "invalid UUID in audit record"@,
            AuditValueError::InvalidPayload => "invalid audit payload"@,
        }
    }

    /// The message of the error.
    pub fn message(&self) -> (r: String)
        ensures
            r@ == self.text(),
    {
        match self {
            AuditValueError::UnknownEventKind(s) => concat(
                "unknown audit event kind: ",
                s.as_str(),
            ),
            AuditValueError::UnknownOutcome(s) => concat("unknown audit outcome: ", s.as_str()),
            AuditValueError::InvalidHash =>
                "audit hash must contain 64 lowercase hexadecimal characters".to_owned(),
            AuditValueError::InvalidUuid => "invalid UUID in audit record".to_owned(),
            AuditValueError::InvalidPayload => "invalid audit payload".to_owned(),
        }
    }
}

/// The identity of an event.
#[derive(Clone, Copy, Debug, PartialEq, Eq, PartialOrd, Ord, Hash, Structural)]
pub struct AuditEventId {
    pub value: u128,
}

impl AuditEventId {
    /// A fresh random identity.
    pub fn new() -> (r: AuditEventId)
        ensures
            r.value & 0xF000_C000_0000_0000_0000 == 0x4000_8000_0000_0000_0000,
    {
        AuditEventId { value: random_uuid() }
    }

    /// The identity with the given bits.
    pub fn from_uuid(value: u128) -> (r: AuditEventId)
        ensures
            r.value == value,
    {
        AuditEventId { value }
    }

    /// The hyphenated text.
    pub fn to_text(&self) -> (r: String)
        ensures
            r@ == uuid_text(self.value),
    {
        uuid_to_text(self.value)
    }
}

impl Default for AuditEventId {
    fn default() -> (r: AuditEventId)
        ensures
            r.value & 0xF000_C000_0000_0000_0000 == 0x4000_8000_0000_0000_0000,
    {
        AuditEventId::new()
    }
}

/// What happened.
#[derive(Clone, Copy, Debug, PartialEq, Eq, Structural)]
pub enum AuditEventKind {
    AuthenticationAccepted,
    AuthenticationRejected,
    RunCreated,
    RunCompleted,
    RunCancelled,
    RunBudgetExhausted,
    ActionProposed,
    ActionNormalized,
    PolicyAllowed,
    PolicyDenied,
    ApprovalCreated,
    ApprovalGranted,
    ApprovalRejected,
    ApprovalConsumed,
    ExecutionStarted,
    ExecutionSucceeded,
    ExecutionFailed,
    ExecutionCancelled,
    ExecutionTimedOut,
    ExecutionUnknown,
}

impl AuditEventKind {
    /// The name on the wire.
    pub open spec fn name(self) -> Seq<char> {
        match self {
            AuditEventKind::AuthenticationAccepted => "authentication_accepted"@,
            AuditEventKind::AuthenticationRejected => "authentication_rejected"@,
            AuditEventKind::RunCreated => "run_created"@,
            AuditEventKind::RunCompleted => "run_completed"@,
            AuditEventKind::RunCancelled => "run_cancelled"@,
            AuditEventKind::RunBudgetExhausted => "run_budget_exhausted"@,
            AuditEventKind::ActionProposed => "action_proposed"@,
            AuditEventKind::ActionNormalized => "action_normalized"@,
            AuditEventKind::PolicyAllowed => "policy_allowed"@,
            AuditEventKind::PolicyDenied => "policy_denied"@,
            AuditEventKind::ApprovalCreated => "approval_created"@,
            AuditEventKind::ApprovalGranted => "approval_granted"@,
            AuditEventKind::ApprovalRejected => "approval_rejected"@,
            AuditEventKind::ApprovalConsumed => "approval_consumed"@,
            AuditEventKind::ExecutionStarted => "execution_started"@,
            AuditEventKind::ExecutionSucceeded => "execution_succeeded"@,
            AuditEventKind::ExecutionFailed => "execution_failed"@,
            AuditEventKind::ExecutionCancelled => "execution_cancelled"@,
            AuditEventKind::ExecutionTimedOut => "execution_timed_out"@,
            AuditEventKind::ExecutionUnknown => "execution_unknown"@,
        }
    }

    /// The name on the wire.
    pub fn as_str(self) -> (r: &'static str)
        ensures
            r@ == self.name(),
    {
        match self {
            AuditEventKind::AuthenticationAccepted => "authentication_accepted",
            AuditEventKind::AuthenticationRejected => "authentication_rejected",
            AuditEventKind::RunCreated => "run_created",
            AuditEventKind::RunCompleted => "run_completed",
            AuditEventKind::RunCancelled => "run_cancelled",
            AuditEventKind::RunBudgetExhausted => "run_budget_exhausted",
            AuditEventKind::ActionProposed => "action_proposed",
            AuditEventKind::ActionNormalized => "action_normalized",
            AuditEventKind::PolicyAllowed => "policy_allowed",
            AuditEventKind::PolicyDenied => "policy_denied",
            AuditEventKind::ApprovalCreated => "approval_created",
            AuditEventKind::ApprovalGranted => "approval_granted",
            AuditEventKind::ApprovalRejected => "approval_rejected",
            AuditEventKind::ApprovalConsumed => "approval_consumed",
            AuditEventKind::ExecutionStarted => "execution_started",
            AuditEventKind::ExecutionSucceeded => "execution_succeeded",
            AuditEventKind::ExecutionFailed => "execution_failed",
            AuditEventKind::ExecutionCancelled => "execution_cancelled",
            AuditEventKind::ExecutionTimedOut => "execution_timed_out",
            AuditEventKind::ExecutionUnknown => "execution_unknown",
        }
    }

    /// The value with the given name.
    pub fn parse(value: &str) -> (r: Result<AuditEventKind, AuditValueError>)
        ensures
            match r {
                Ok(v) => v.name() == value@,
                Err(e) =>
                    e matches AuditValueError::UnknownEventKind(s) && s@ == value@
                        && (forall|v: AuditEventKind| #[trigger] v.name() != value@),
            },
    {
        let r = if str_eq(value, "authentication_accepted") {
            Ok(AuditEventKind::AuthenticationAccepted)
        } else if str_eq(value, "authentication_rejected") {
            Ok(AuditEventKind::AuthenticationRejected)
        } else if str_eq(value, "run_created") {
            Ok(AuditEventKind::RunCreated)
        } else if str_eq(value, "run_completed") {
            Ok(AuditEventKind::RunCompleted)
        } else if str_eq(value, "run_cancelled") {
            Ok(AuditEventKind::RunCancelled)
        } else if str_eq(value, "run_budget_exhausted") {
            Ok(AuditEventKind::RunBudgetExhausted)
        } else if str_eq(value, "action_proposed") {
            Ok(AuditEventKind::ActionProposed)
        } else if str_eq(value, "action_normalized") {
            Ok(AuditEventKind::ActionNormalized)
        } else if str_eq(value, "policy_allowed") {
            Ok(AuditEventKind::PolicyAllowed)
        } else if str_eq(value, "policy_denied") {
            Ok(AuditEventKind::PolicyDenied)
        } else if str_eq(value, "approval_created") {
            Ok(AuditEventKind::ApprovalCreated)
        } else if str_eq(value, "approval_granted") {
            Ok(AuditEventKind::ApprovalGranted)
        } else if str_eq(value, "approval_rejected") {
            Ok(AuditEventKind::ApprovalRejected)
        } else if str_eq(value, "approval_consumed") {
            Ok(AuditEventKind::ApprovalConsumed)
        } else if str_eq(value, "execution_started") {
            Ok(AuditEventKind::ExecutionStarted)
        } else if str_eq(value, "execution_succeeded") {
            Ok(AuditEventKind::ExecutionSucceeded)
        } else if str_eq(value, "execution_failed") {
            Ok(AuditEventKind::ExecutionFailed)
        } else if str_eq(value, "execution_cancelled") {
            Ok(AuditEventKind::ExecutionCancelled)
        } else if str_eq(value, "execution_timed_out") {
            Ok(AuditEventKind::ExecutionTimedOut)
        } else if str_eq(value, "execution_unknown") {
            Ok(AuditEventKind::ExecutionUnknown)
        } else {
            Err(AuditValueError::UnknownEventKind(value.to_owned()))
        };
        r
    }
}

/// No two values share a name.
pub proof fn audit_event_kind_names_differ(a: AuditEventKind, b: AuditEventKind)
    requires
        a.name() == b.name(),
    ensures
        a == b,
{
    reveal_strlit("authentication_accepted");
    reveal_strlit("authentication_rejected");
    reveal_strlit("run_created");
    reveal_strlit("run_completed");
    reveal_strlit("run_cancelled");
    reveal_strlit("run_budget_exhausted");
    reveal_strlit("action_proposed");
    reveal_strlit("action_normalized");
    reveal_strlit("policy_allowed");
    reveal_strlit("policy_denied");
    reveal_strlit("approval_created");
    reveal_strlit("approval_granted");
    reveal_strlit("approval_rejected");
    reveal_strlit("approval_consumed");
    reveal_strlit("execution_started");
    reveal_strlit("execution_succeeded");
    reveal_strlit("execution_failed");
    reveal_strlit("execution_cancelled");
    reveal_strlit("execution_timed_out");
    reveal_strlit("execution_unknown");
    assert("authentication_accepted"@.len() == 23);
    assert("authentication_rejected"@.len() == 23);
    assert("run_created"@.len() == 11);
    assert("run_completed"@.len() == 13);
    assert("run_cancelled"@.len() == 13);
    assert("run_budget_exhausted"@.len() == 20);
    assert("action_proposed"@.len() == 15);
    assert("action_normalized"@.len() == 17);
    assert("policy_allowed"@.len() == 14);
    assert("policy_denied"@.len() == 13);
    assert("approval_created"@.len() == 16);
    assert("approval_granted"@.len() == 16);
    assert("approval_rejected"@.len() == 17);
    assert("approval_consumed"@.len() == 17);
    assert("execution_started"@.len() == 17);
    assert("execution_succeeded"@.len() == 19);
    assert("execution_failed"@.len() == 16);
    assert("execution_cancelled"@.len() == 19);
    assert("execution_timed_out"@.len() == 19);
    assert("execution_unknown"@.len() == 17);
    assert("authentication_accepted"@[15] != "authentication_rejected"@[15]);
    assert("run_completed"@[5] != "run_cancelled"@[5]);
    assert("run_completed"@[0] != "policy_denied"@[0]);
    assert("run_cancelled"@[0] != "policy_denied"@[0]);
    assert("action_normalized"@[1] != "approval_rejected"@[1]);
    assert("action_normalized"@[1] != "approval_consumed"@[1]);
    assert("action_normalized"@[0] != "execution_started"@[0]);
    assert("action_normalized"@[0] != "execution_unknown"@[0]);
    assert("approval_created"@[9] != "approval_granted"@[9]);
    assert("approval_created"@[0] != "execution_failed"@[0]);
    assert("approval_granted"@[0] != "execution_failed"@[0]);
    assert("approval_rejected"@[9] != "approval_consumed"@[9]);
    assert("approval_rejected"@[0] != "execution_started"@[0]);
    assert("approval_rejected"@[0] != "execution_unknown"@[0]);
    assert("approval_consumed"@[0] != "execution_started"@[0]);
    assert("approval_consumed"@[0] != "execution_unknown"@[0]);
    assert("execution_started"@[10] != "execution_unknown"@[10]);
    assert("execution_succeeded"@[10] != "execution_cancelled"@[10]);
    assert("execution_succeeded"@[10] != "execution_timed_out"@[10]);
    assert("execution_cancelled"@[10] != "execution_timed_out"@[10]);
}

/// How it ended.
#[derive(Clone, Copy, Debug, PartialEq, Eq, Structural)]
pub enum AuditOutcome {
    Success,
    Failure,
    Denied,
    Pending,
    Unknown,
}

impl AuditOutcome {
    /// The name on the wire.
    pub open spec fn name(self) -> Seq<char> {
        match self {
            AuditOutcome::Success => "success"@,
            AuditOutcome::Failure => "failure"@,
            AuditOutcome::Denied => "denied"@,
            AuditOutcome::Pending => "pending"@,
            AuditOutcome::Unknown => "unknown"@,
        }
    }

    /// The name on the wire.
    pub fn as_str(self) -> (r: &'static str)
        ensures
            r@ == self.name(),
    {
        match self {
            AuditOutcome::Success => "success",
            AuditOutcome::Failure => "failure",
            AuditOutcome::Denied => "denied",
            AuditOutcome::Pending => "pending",
            AuditOutcome::Unknown => "unknown",
        }
    }

    /// The value with the given name.
    pub fn parse(value: &str) -> (r: Result<AuditOutcome, AuditValueError>)
        ensures
            match r {
                Ok(v) => v.name() == value@,
                Err(e) =>
                    e matches AuditValueError::UnknownOutcome(s) && s@ == value@
                        && (forall|v: AuditOutcome| #[trigger] v.name() != value@),
            },
    {
        let r = if str_eq(value, "success") {
            Ok(AuditOutcome::Success)
        } else if str_eq(value, "failure") {
            Ok(AuditOutcome::Failure)
        } else if str_eq(value, "denied") {
            Ok(AuditOutcome::Denied)
        } else if str_eq(value, "pending") {
            Ok(AuditOutcome::Pending)
        } else if str_eq(value, "unknown") {
            Ok(AuditOutcome::Unknown)
        } else {
            Err(AuditValueError::UnknownOutcome(value.to_owned()))
        };
        r
    }
}

/// No two values share a name.
pub proof fn audit_outcome_names_differ(a: AuditOutcome, b: AuditOutcome)
    requires
        a.name() == b.name(),
    ensures
        a == b,
{
    reveal_strlit("success");
    reveal_strlit("failure");
    reveal_strlit("denied");
    reveal_strlit("pending");
    reveal_strlit("unknown");
    assert("success"@[0] != "failure"@[0]);
    assert("success"@[0] != "pending"@[0]);
    assert("success"@[0] != "unknown"@[0]);
    assert("failure"@[0] != "pending"@[0]);
    assert("failure"@[0] != "unknown"@[0]);
    assert("pending"@[0] != "unknown"@[0]);
}

/// An event.
#[derive(Debug, PartialEq, Eq)]
pub struct AuditEvent {
    id: AuditEventId,
    timestamp: TimestampMillis,
    kind: AuditEventKind,
    outcome: AuditOutcome,
    workspace_id: Option<WorkspaceId>,
    payload: CanonicalValue,
}

/// The model of an `AuditEvent`.
pub struct EventView {
    pub id: AuditEventId,
    pub timestamp: TimestampMillis,
    pub kind: AuditEventKind,
    pub outcome: AuditOutcome,
    pub workspace_id: Option<WorkspaceId>,
    pub payload: JsonView,
}

impl View for AuditEvent {
    type V = EventView;

    closed spec fn view(&self) -> EventView {
        EventView {
            id: self.id,
            timestamp: self.timestamp,
            kind: self.kind,
            outcome: self.outcome,
            workspace_id: self.workspace_id,
            payload: self.payload@,
        }
    }
}

impl Clone for AuditEvent {
    fn clone(&self) -> (r: AuditEvent)
        ensures
            r@ == self@,
    {
        AuditEvent {
            id: self.id,
            timestamp: self.timestamp,
            kind: self.kind,
            outcome: self.outcome,
            workspace_id: self.workspace_id,
            payload: self.payload.clone(),
        }
    }
}

impl EventView {
    /// The JSON value.
    pub open spec fn json(self) -> JsonView {
        JsonView::Object(
            no_fields().push(("id"@, JsonView::Str(uuid_text(self.id.value)))).push(
                ("timestamp"@, JsonView::Int(self.timestamp.value as int)),
            ).push(("kind"@, JsonView::Str(self.kind.name()))).push(
                ("outcome"@, JsonView::Str(self.outcome.name())),
            ).push(
                (
                    "workspace_id"@,
                    match self.workspace_id {
                        Some(w) => JsonView::Str(uuid_text(w.value)),
                        None => JsonView::Null,
                    },
                ),
            ).push(("payload"@, self.payload)),
        )
    }
}

impl AuditEvent {
    /// An event.
    pub fn new(
        id: AuditEventId,
        timestamp: TimestampMillis,
        kind: AuditEventKind,
        outcome: AuditOutcome,
        workspace_id: Option<WorkspaceId>,
        payload: CanonicalValue,
    ) -> (r: AuditEvent)
        ensures
            r@ == (EventView { id, timestamp, kind, outcome, workspace_id, payload: payload@ }),
    {
        AuditEvent { id, timestamp, kind, outcome, workspace_id, payload }
    }

    /// The identity.
    pub fn id(&self) -> (r: AuditEventId)
        ensures
            r == self@.id,
    {
        self.id
    }

    /// When it happened.
    pub fn timestamp(&self) -> (r: TimestampMillis)
        ensures
            r == self@.timestamp,
    {
        self.timestamp
    }

    /// What happened.
    pub fn kind(&self) -> (r: AuditEventKind)
        ensures
            r == self@.kind,
    {
        self.kind
    }

    /// How it ended.
    pub fn outcome(&self) -> (r: AuditOutcome)
        ensures
            r == self@.outcome,
    {
        self.outcome
    }

    /// Where it happened.
    pub fn workspace_id(&self) -> (r: Option<WorkspaceId>)
        ensures
            r == self@.workspace_id,
    {
        self.workspace_id
    }

    /// What is known of it.
    pub fn payload(&self) -> (r: &CanonicalValue)
        ensures
            r@ == self@.payload,
    {
        &self.payload
    }

    fn to_json(&self) -> (r: Json)
        ensures
            r@ == self@.json(),
    {
        let mut m = no_members();
        put(&mut m, "id", Json::Str(self.id.to_text()));
        put(&mut m, "timestamp", Json::UInt(self.timestamp.value));
        put(&mut m, "kind", string(self.kind.as_str()));
        put(&mut m, "outcome", string(self.outcome.as_str()));
        put(
            &mut m,
            "workspace_id",
            match self.workspace_id {
                Some(w) => Json::Str(w.to_text()),
                None => Json::Null,
            },
        );
        put(&mut m, "payload", self.payload.to_json());
        object(m)
    }
}

/// The digest that binds a record: 64 lowercase hexadecimal digits.
#[derive(Debug, PartialEq, Eq, Hash)]
pub struct AuditHash {
    value: String,
}

impl View for AuditHash {
    type V = Seq<char>;

    closed spec fn view(&self) -> Seq<char> {
        self.value@
    }
}

impl Clone for AuditHash {
    fn clone(&self) -> (r: AuditHash)
        ensures
            r@ == self@,
    {
        AuditHash { value: self.value.clone() }
    }
}

/// The hash before the first record: 64 zeros.
pub open spec fn genesis_hash() -> Seq<char> {
    Seq::new(64, |i: int| '0')
}

impl AuditHash {
    /// The hash before the first record.
    pub fn genesis() -> (r: AuditHash)
        ensures
            r@ == genesis_hash(),
    {
        let mut value = String::new();
        let mut i: usize = 0;
        while i < 64
            invariant
                i <= 64,
                value@.len() == i,
                forall|k: int| 0 <= k < i ==> value@[k] == '0',
            decreases 64 - i,
        {
            value.push('0');
            i += 1;
        }
        proof {
            assert(value@ =~= genesis_hash());
        }
        AuditHash { value }
    }

    /// Checks and takes the text.
    pub fn parse(value: String) -> (r: Result<AuditHash, AuditValueError>)
        ensures
            match r {
                Ok(h) => is_digest(value@) && h@ == value@,
                Err(e) => !is_digest(value@) && e == AuditValueError::InvalidHash,
            },
    {
        if !digest_shaped(value.as_str()) {
            return Err(AuditValueError::InvalidHash);
        }
        Ok(AuditHash { value })
    }

    /// The text.
    pub fn as_str(&self) -> (r: &str)
        ensures
            r@ == self@,
    {
        self.value.as_str()
    }

    /// Whether both are the same hash.
    pub fn same(&self, other: &AuditHash) -> (r: bool)
        ensures
            r == (self@ == other@),
    {
        str_eq(self.value.as_str(), other.value.as_str())
    }
}

/// Why a chain of records is refused.
#[derive(Clone, Debug, PartialEq, Eq)]
pub enum AuditIntegrityError {
    PreviousHashMismatch { sequence: i64 },
    HashMismatch { sequence: i64 },
    SequenceGap { expected: i64, actual: i64 },
    InvalidValue(AuditValueError),
    Storage(String),
}

impl AuditIntegrityError {
    /// The message of the error.
    pub open spec fn text(self) -> Seq<char> {
        match self {
            AuditIntegrityError::PreviousHashMismatch { sequence } => "audit event "@
                + decimal_int(sequence as int)
                + " does not reference the expected previous hash"@,
            AuditIntegrityError::HashMismatch { sequence } => "audit event "@ + decimal_int(
                sequence as int,
            ) + " hash does not match its content"@,
            AuditIntegrityError::SequenceGap { expected, actual } => "audit sequence expected "@
                + decimal_int(expected as int) + " but found "@ + decimal_int(actual as int),
            AuditIntegrityError::InvalidValue(e) => e.text(),
            AuditIntegrityError::Storage(s) => "could not read audit storage: "@ + s@,
        }
    }

    /// The message of the error.
    pub fn message(&self) -> (r: String)
        ensures
            r@ == self.text(),
    {
        match self {
            AuditIntegrityError::PreviousHashMismatch { sequence } => surround(
                "audit event ",
                i64_text(*sequence).as_str(),
                " does not reference the expected previous hash",
            ),
            AuditIntegrityError::HashMismatch { sequence } => surround(
                "audit event ",
                i64_text(*sequence).as_str(),
                " hash does not match its content",
            ),
            AuditIntegrityError::SequenceGap { expected, actual } => {
                let mut out = surround(
                    "audit sequence expected ",
                    i64_text(*expected).as_str(),
                    " but found ",
                );
                out.append(i64_text(*actual).as_str());
                out
            },
            AuditIntegrityError::InvalidValue(e) => e.message(),
            AuditIntegrityError::Storage(s) => concat("could not read audit storage: ", s.as_str()),
        }
    }
}

/// A record: an event with its place in the chain.
#[derive(Clone, Debug, PartialEq, Eq)]
pub struct AuditRecord {
    sequence: i64,
    event: AuditEvent,
    previous_hash: AuditHash,
    hash: AuditHash,
}

/// The model of an `AuditRecord`.
pub struct RecordView {
    pub sequence: i64,
    pub event: EventView,
    pub previous_hash: Seq<char>,
    pub hash: Seq<char>,
}

impl View for AuditRecord {
    type V = RecordView;

    closed spec fn view(&self) -> RecordView {
        RecordView {
            sequence: self.sequence,
            event: self.event@,
            previous_hash: self.previous_hash@,
            hash: self.hash@,
        }
    }
}

/// The value that the hash of a record covers.
pub open spec fn record_value(sequence: i64, event: EventView, previous: Seq<char>) -> JsonView {
    JsonView::Array(
        Seq::<JsonView>::empty().push(JsonView::Int(sequence as int)).push(event.json()).push(
            JsonView::Str(previous),
        ),
    )
}

/// The hash of a record: the digest of its sequence number, its event and the
/// hash before it.
pub open spec fn record_hash(sequence: i64, event: EventView, previous: Seq<char>) -> Seq<char> {
    text_digest(plain(record_value(sequence, event, previous)))
}

fn calculate_hash(sequence: i64, event: &AuditEvent, previous_hash: &AuditHash) -> (r: AuditHash)
    ensures
        r@ == record_hash(sequence, event@, previous_hash@),
{
    let mut v: Vec<Json> = Vec::new();
    v.push(Json::Int(sequence));
    v.push(event.to_json());
    v.push(string(previous_hash.as_str()));
    proof {
        assert(item_models(v@) =~= Seq::<JsonView>::empty().push(
            JsonView::Int(sequence as int),
        ).push(event@.json()).push(JsonView::Str(previous_hash@)));
    }
    let text = array(v).to_text();
    AuditHash { value: sha256_hex_str(text.as_str()) }
}

impl RecordView {
    /// What is wrong with the record, if it should follow `expected_previous`.
    pub open spec fn flaw(self, expected_previous: Seq<char>) -> Option<AuditIntegrityError> {
        if self.previous_hash != expected_previous {
            Some(AuditIntegrityError::PreviousHashMismatch { sequence: self.sequence })
        } else if self.hash != record_hash(self.sequence, self.event, self.previous_hash) {
            Some(AuditIntegrityError::HashMismatch { sequence: self.sequence })
        } else {
            None
        }
    }
}

impl AuditRecord {
    /// The record of `event` that follows `previous_hash`.
    pub fn chain(sequence: i64, event: AuditEvent, previous_hash: AuditHash) -> (r: AuditRecord)
        ensures
            r@ == (RecordView {
                sequence,
                event: event@,
                previous_hash: previous_hash@,
                hash: record_hash(sequence, event@, previous_hash@),
            }),
    {
        let hash = calculate_hash(sequence, &event, &previous_hash);
        AuditRecord { sequence, event, previous_hash, hash }
    }

    /// The record with the given parts, as they were stored.
    pub fn from_stored(
        sequence: i64,
        event: AuditEvent,
        previous_hash: AuditHash,
        hash: AuditHash,
    ) -> (r: AuditRecord)
        ensures
            r@ == (RecordView {
                sequence,
                event: event@,
                previous_hash: previous_hash@,
                hash: hash@,
            }),
    {
        AuditRecord { sequence, event, previous_hash, hash }
    }

    /// The position in the chain.
    pub fn sequence(&self) -> (r: i64)
        ensures
            r == self@.sequence,
    {
        self.sequence
    }

    /// The event.
    pub fn event(&self) -> (r: &AuditEvent)
        ensures
            r@ == self@.event,
    {
        &self.event
    }

    /// The hash of the record before.
    pub fn previous_hash(&self) -> (r: &AuditHash)
        ensures
            r@ == self@.previous_hash,
    {
        &self.previous_hash
    }

    /// The hash of the record.
    pub fn hash(&self) -> (r: &AuditHash)
        ensures
            r@ == self@.hash,
    {
        &self.hash
    }

    /// Checks that the record follows `expected_previous` and that its hash is
    /// that of its content.
    pub fn verify(&self, expected_previous: &AuditHash) -> (r: Result<(), AuditIntegrityError>)
        ensures
            match r {
                Ok(()) => self@.flaw(expected_previous@) is None,
                Err(e) => self@.flaw(expected_previous@) == Some(e),
            },
    {
        if !self.previous_hash.same(expected_previous) {
            return Err(
                AuditIntegrityError::PreviousHashMismatch { sequence: self.sequence },
            );
        }
        let hash = calculate_hash(self.sequence, &self.event, &self.previous_hash);
        if !self.hash.same(&hash) {
            return Err(AuditIntegrityError::HashMismatch { sequence: self.sequence });
        }
        Ok(())
    }
}

/// A record made by `chain` follows its predecessor, and no other.
pub proof fn chained_records_verify(
    sequence: i64,
    event: EventView,
    previous: Seq<char>,
    other: Seq<char>,
)
    ensures
        (RecordView {
            sequence,
            event,
            previous_hash: previous,
            hash: record_hash(sequence, event, previous),
        }).flaw(other) is None <==> other == previous,
{
}

/// The value of an event holds the whole event.
pub proof fn events_are_told_apart(a: EventView, b: EventView)
    requires
        a.json() == b.json(),
    ensures
        a == b,
{
    let x = a.json()->Object_0;
    let y = b.json()->Object_0;
    assert(x[0].1 == y[0].1);
    assert(x[1].1 == y[1].1);
    assert(x[2].1 == y[2].1);
    assert(x[3].1 == y[3].1);
    assert(x[4].1 == y[4].1);
    assert(x[5].1 == y[5].1);
    uuid_text_is_injective(a.id.value, b.id.value);
    audit_event_kind_names_differ(a.kind, b.kind);
    audit_outcome_names_differ(a.outcome, b.outcome);
    if let (Some(v), Some(w)) = (a.workspace_id, b.workspace_id) {
        uuid_text_is_injective(v.value, w.value);
    }
}

/// The hash of a record covers its number, its event and the hash before it: two
/// records with the same hashed value agree in all three.
pub proof fn record_hashes_cover_the_record(a: RecordView, b: RecordView)
    requires
        record_value(a.sequence, a.event, a.previous_hash) == record_value(
            b.sequence,
            b.event,
            b.previous_hash,
        ),
    ensures
        a.sequence == b.sequence,
        a.event == b.event,
        a.previous_hash == b.previous_hash,
{
    let x = record_value(a.sequence, a.event, a.previous_hash)->Array_0;
    let y = record_value(b.sequence, b.event, b.previous_hash)->Array_0;
    assert(x[0] == y[0]);
    assert(x[1] == y[1]);
    assert(x[2] == y[2]);
    events_are_told_apart(a.event, b.event);
}

} // verus!
