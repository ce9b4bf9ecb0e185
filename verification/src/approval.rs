//! Approvals: asked for once, decided once, used once.

use crate::action::{ActionEnvelope, ActionFingerprint};
use crate::identity::{PrincipalId, PrincipalView};
use crate::ids::{random_uuid, uuid_text, uuid_to_text};
use crate::policy::{DecisionView, DenialReason, DenialView, PolicyDecision, PolicyVersion};
use crate::text::concat;
use vstd::prelude::*;

verus! {

/// The identity of an approval.
#[derive(Clone, Copy, Debug, PartialEq, Eq, PartialOrd, Ord, Hash, Structural)]
pub struct ApprovalId {
    pub value: u128,
}

impl ApprovalId {
    /// A fresh random identity.
    pub fn new() -> (r: ApprovalId)
        ensures
            r.value & 0xF000_C000_0000_0000_0000 == 0x4000_8000_0000_0000_0000,
    {
        ApprovalId { value: random_uuid() }
    }

    /// The identity with the given bits.
    pub fn from_uuid(value: u128) -> (r: ApprovalId)
        ensures
            r.value == value,
    {
        ApprovalId { value }
    }

    /// The hyphenated text.
    pub fn to_text(&self) -> (r: String)
        ensures
            r@ == uuid_text(self.value),
    {
        uuid_to_text(self.value)
    }
}

impl Default for ApprovalId {
    fn default() -> (r: ApprovalId)
        ensures
            r.value & 0xF000_C000_0000_0000_0000 == 0x4000_8000_0000_0000_0000,
    {
        ApprovalId::new()
    }
}

/// The identity of an attempt to execute.
#[derive(Clone, Copy, Debug, PartialEq, Eq, PartialOrd, Ord, Hash, Structural)]
pub struct ExecutionAttemptId {
    pub value: u128,
}

impl ExecutionAttemptId {
    /// A fresh random identity.
    pub fn new() -> (r: ExecutionAttemptId)
        ensures
            r.value & 0xF000_C000_0000_0000_0000 == 0x4000_8000_0000_0000_0000,
    {
        ExecutionAttemptId { value: random_uuid() }
    }

    /// The identity with the given bits.
    pub fn from_uuid(value: u128) -> (r: ExecutionAttemptId)
        ensures
            r.value == value,
    {
        ExecutionAttemptId { value }
    }

    /// The hyphenated text.
    pub fn to_text(&self) -> (r: String)
        ensures
            r@ == uuid_text(self.value),
    {
        uuid_to_text(self.value)
    }
}

impl Default for ExecutionAttemptId {
    fn default() -> (r: ExecutionAttemptId)
        ensures
            r.value & 0xF000_C000_0000_0000_0000 == 0x4000_8000_0000_0000_0000,
    {
        ExecutionAttemptId::new()
    }
}

/// A time in milliseconds since the epoch.
#[derive(Clone, Copy, Debug, PartialEq, Eq, PartialOrd, Ord, Hash, Structural)]
pub struct TimestampMillis {
    pub value: u64,
}

impl TimestampMillis {
    /// The time with the given count of milliseconds.
    pub fn new(value: u64) -> (r: TimestampMillis)
        ensures
            r.value == value,
    {
        TimestampMillis { value }
    }

    /// The count of milliseconds.
    pub fn as_u64(self) -> (r: u64)
        ensures
            r == self.value,
    {
        self.value
    }
}

/// The state of an approval.
#[derive(Clone, Copy, Debug, PartialEq, Eq, Structural)]
pub enum ApprovalState {
    Pending,
    Granted,
    Rejected,
    Expired,
    Consumed,
    Invalidated,
}

impl ApprovalState {
    /// The name on the wire.
    pub open spec fn name(self) -> Seq<char> {
        match self {
            ApprovalState::Pending => "pending"@,
            ApprovalState::Granted => "granted"@,
            ApprovalState::Rejected => "rejected"@,
            ApprovalState::Expired => "expired"@,
            ApprovalState::Consumed => "consumed"@,
            ApprovalState::Invalidated => "invalidated"@,
        }
    }

    /// The name on the wire.
    pub fn as_str(self) -> (r: &'static str)
        ensures
            r@ == self.name(),
    {
        match self {
            ApprovalState::Pending => "pending",
            ApprovalState::Granted => "granted",
            ApprovalState::Rejected => "rejected",
            ApprovalState::Expired => "expired",
            ApprovalState::Consumed => "consumed",
            ApprovalState::Invalidated => "invalidated",
        }
    }
}

/// Why an approval is refused.
#[derive(Clone, Copy, Debug, PartialEq, Eq, Structural)]
pub enum ApprovalError {
    InvalidTimeRange,
    InvalidDecisionTime,
    AlreadyGranted,
    NotGranted,
    Rejected,
    Expired,
    AlreadyConsumed,
    Invalidated,
    ActionFingerprintMismatch,
    PolicyVersionMismatch,
}

impl ApprovalError {
    /// The message of the error.
    pub open spec fn text(self) -> Seq<char> {
        match self {
            ApprovalError::InvalidTimeRange => "approval expiry must be later than creation"@,
            ApprovalError::InvalidDecisionTime => "approval decision cannot predate creation"@,
            ApprovalError::AlreadyGranted => "approval has already been granted"@,
            ApprovalError::NotGranted => "approval has not been granted"@,
            ApprovalError::Rejected => "approval was rejected"@,
            ApprovalError::Expired => "approval expired"@,
            ApprovalError::AlreadyConsumed => "approval was already consumed"@,
            ApprovalError::Invalidated => "approval was invalidated"@,
            ApprovalError::ActionFingerprintMismatch => "action fingerprint does not match approval"@,
            ApprovalError::PolicyVersionMismatch => "policy version does not match approval"@,
        }
    }

    /// The message of the error.
    pub fn message(&self) -> (r: &'static str)
        ensures
            r@ == self.text(),
    {
        match self {
            ApprovalError::InvalidTimeRange => "approval expiry must be later than creation",
            ApprovalError::InvalidDecisionTime => "approval decision cannot predate creation",
            ApprovalError::AlreadyGranted => "approval has already been granted",
            ApprovalError::NotGranted => "approval has not been granted",
            ApprovalError::Rejected => "approval was rejected",
            ApprovalError::Expired => "approval expired",
            ApprovalError::AlreadyConsumed => "approval was already consumed",
            ApprovalError::Invalidated => "approval was invalidated",
            ApprovalError::ActionFingerprintMismatch => "action fingerprint does not match approval",
            ApprovalError::PolicyVersionMismatch => "policy version does not match approval",
        }
    }
}

/// A request to approve one action under one version of the policy.
#[derive(Debug, PartialEq, Eq)]
pub struct ApprovalRequest {
    id: ApprovalId,
    action_fingerprint: ActionFingerprint,
    policy_version: PolicyVersion,
    created_at: TimestampMillis,
    expires_at: TimestampMillis,
    state: ApprovalState,
    decided_by: Option<PrincipalId>,
    decided_at: Option<TimestampMillis>,
    consumed_at: Option<TimestampMillis>,
}

/// The model of an `ApprovalRequest`.
pub struct ApprovalView {
    pub id: ApprovalId,
    pub action_fingerprint: Seq<char>,
    pub policy_version: Seq<char>,
    pub created_at: TimestampMillis,
    pub expires_at: TimestampMillis,
    pub state: ApprovalState,
    pub decided_by: Option<PrincipalView>,
    pub decided_at: Option<TimestampMillis>,
    pub consumed_at: Option<TimestampMillis>,
}

/// The model of who decided.
pub open spec fn decider(d: Option<PrincipalId>) -> Option<PrincipalView> {
    match d {
        Some(p) => Some(p@),
        None => None,
    }
}

impl View for ApprovalRequest {
    type V = ApprovalView;

    closed spec fn view(&self) -> ApprovalView {
        ApprovalView {
            id: self.id,
            action_fingerprint: self.action_fingerprint@,
            policy_version: self.policy_version@,
            created_at: self.created_at,
            expires_at: self.expires_at,
            state: self.state,
            decided_by: decider(self.decided_by),
            decided_at: self.decided_at,
            consumed_at: self.consumed_at,
        }
    }
}

impl ApprovalView {
    /// A decision at `now` is refused: it comes too early or too late, or the
    /// request is no longer pending. A decision that comes too late expires
    /// the request.
    pub open spec fn undecidable(self, now: TimestampMillis) -> Option<ApprovalError> {
        if now.value < self.created_at.value {
            Some(ApprovalError::InvalidDecisionTime)
        } else if now.value >= self.expires_at.value {
            Some(ApprovalError::Expired)
        } else {
            match self.state {
                ApprovalState::Pending => None,
                ApprovalState::Granted => Some(ApprovalError::AlreadyGranted),
                ApprovalState::Rejected => Some(ApprovalError::Rejected),
                ApprovalState::Expired => Some(ApprovalError::Expired),
                ApprovalState::Consumed => Some(ApprovalError::AlreadyConsumed),
                ApprovalState::Invalidated => Some(ApprovalError::Invalidated),
            }
        }
    }

    /// The request after a decision at `now` by `approver`.
    pub open spec fn decided(
        self,
        outcome: ApprovalState,
        approver: PrincipalView,
        now: TimestampMillis,
    ) -> (ApprovalView, Result<(), ApprovalError>) {
        match self.undecidable(now) {
            None => (
                ApprovalView {
                    state: outcome,
                    decided_by: Some(approver),
                    decided_at: Some(now),
                    ..self
                },
                Ok(()),
            ),
            Some(e) => (
                if self.created_at.value <= now.value && now.value >= self.expires_at.value {
                    ApprovalView { state: ApprovalState::Expired, ..self }
                } else {
                    self
                },
                Err(e),
            ),
        }
    }

    /// The request after an attempt to use it at `now`, for an action with the
    /// given fingerprint under the given version of the policy.
    pub open spec fn used(
        self,
        fingerprint: Seq<char>,
        policy_version: Seq<char>,
        now: TimestampMillis,
    ) -> (ApprovalView, Result<ApprovalId, ApprovalError>) {
        match self.state {
            ApprovalState::Pending => (self, Err(ApprovalError::NotGranted)),
            ApprovalState::Rejected => (self, Err(ApprovalError::Rejected)),
            ApprovalState::Expired => (self, Err(ApprovalError::Expired)),
            ApprovalState::Consumed => (self, Err(ApprovalError::AlreadyConsumed)),
            ApprovalState::Invalidated => (self, Err(ApprovalError::Invalidated)),
            ApprovalState::Granted => if now.value >= self.expires_at.value {
                (
                    ApprovalView { state: ApprovalState::Expired, ..self },
                    Err(ApprovalError::Expired),
                )
            } else if self.decided_at is Some && now.value < self.decided_at->0.value {
                (self, Err(ApprovalError::InvalidDecisionTime))
            } else if fingerprint != self.action_fingerprint {
                (
                    ApprovalView { state: ApprovalState::Invalidated, ..self },
                    Err(ApprovalError::ActionFingerprintMismatch),
                )
            } else if policy_version != self.policy_version {
                (
                    ApprovalView { state: ApprovalState::Invalidated, ..self },
                    Err(ApprovalError::PolicyVersionMismatch),
                )
            } else {
                (
                    ApprovalView {
                        state: ApprovalState::Consumed,
                        consumed_at: Some(now),
                        ..self
                    },
                    Ok(self.id),
                )
            },
        }
    }

    /// The request is over: rejected, expired, consumed or invalidated.
    pub open spec fn is_over(self) -> bool {
        match self.state {
            ApprovalState::Pending | ApprovalState::Granted => false,
            _ => true,
        }
    }
}

impl ApprovalRequest {
    /// A pending request.
    pub fn new(
        id: ApprovalId,
        action_fingerprint: ActionFingerprint,
        policy_version: PolicyVersion,
        created_at: TimestampMillis,
        expires_at: TimestampMillis,
    ) -> (r: Result<ApprovalRequest, ApprovalError>)
        ensures
            match r {
                Ok(a) => created_at.value < expires_at.value && a@ == (ApprovalView {
                    id,
                    action_fingerprint: action_fingerprint@,
                    policy_version: policy_version@,
                    created_at,
                    expires_at,
                    state: ApprovalState::Pending,
                    decided_by: None,
                    decided_at: None,
                    consumed_at: None,
                }),
                Err(e) => created_at.value >= expires_at.value && e
                    == ApprovalError::InvalidTimeRange,
            },
    {
        if expires_at.value <= created_at.value {
            return Err(ApprovalError::InvalidTimeRange);
        }
        Ok(
            ApprovalRequest {
                id,
                action_fingerprint,
                policy_version,
                created_at,
                expires_at,
                state: ApprovalState::Pending,
                decided_by: None,
                decided_at: None,
                consumed_at: None,
            },
        )
    }

    /// The identity.
    pub fn id(&self) -> (r: ApprovalId)
        ensures
            r == self@.id,
    {
        self.id
    }

    /// The state.
    pub fn state(&self) -> (r: ApprovalState)
        ensures
            r == self@.state,
    {
        self.state
    }

    /// The fingerprint of the action that is to be approved.
    pub fn action_fingerprint(&self) -> (r: &ActionFingerprint)
        ensures
            r@ == self@.action_fingerprint,
    {
        &self.action_fingerprint
    }

    /// The version of the policy that asked.
    pub fn policy_version(&self) -> (r: &PolicyVersion)
        ensures
            r@ == self@.policy_version,
    {
        &self.policy_version
    }

    /// When it was made.
    pub fn created_at(&self) -> (r: TimestampMillis)
        ensures
            r == self@.created_at,
    {
        self.created_at
    }

    /// When it expires.
    pub fn expires_at(&self) -> (r: TimestampMillis)
        ensures
            r == self@.expires_at,
    {
        self.expires_at
    }

    /// Who decided.
    pub fn decided_by(&self) -> (r: Option<&PrincipalId>)
        ensures
            match r {
                Some(p) => self@.decided_by == Some(p@),
                None => self@.decided_by is None,
            },
    {
        match &self.decided_by {
            Some(p) => Some(p),
            None => None,
        }
    }

    /// When it was decided.
    pub fn decided_at(&self) -> (r: Option<TimestampMillis>)
        ensures
            r == self@.decided_at,
    {
        self.decided_at
    }

    /// When it was used.
    pub fn consumed_at(&self) -> (r: Option<TimestampMillis>)
        ensures
            r == self@.consumed_at,
    {
        self.consumed_at
    }

    /// Grants the request.
    pub fn grant(&mut self, approver: PrincipalId, now: TimestampMillis) -> (r: Result<
        (),
        ApprovalError,
    >)
        ensures
            (final(self)@, r) == old(self)@.decided(ApprovalState::Granted, approver@, now),
    {
        match self.ensure_pending(now) {
            Ok(()) => {},
            Err(e) => {
                return Err(e);
            },
        }
        self.state = ApprovalState::Granted;
        self.decided_by = Some(approver);
        self.decided_at = Some(now);
        Ok(())
    }

    /// Rejects the request.
    pub fn reject(&mut self, approver: PrincipalId, now: TimestampMillis) -> (r: Result<
        (),
        ApprovalError,
    >)
        ensures
            (final(self)@, r) == old(self)@.decided(ApprovalState::Rejected, approver@, now),
    {
        match self.ensure_pending(now) {
            Ok(()) => {},
            Err(e) => {
                return Err(e);
            },
        }
        self.state = ApprovalState::Rejected;
        self.decided_by = Some(approver);
        self.decided_at = Some(now);
        Ok(())
    }

    fn ensure_pending(&mut self, now: TimestampMillis) -> (r: Result<(), ApprovalError>)
        ensures
            match r {
                Ok(()) => old(self)@.undecidable(now) is None && *final(self) == *old(self),
                Err(e) => old(self)@.undecidable(now) == Some(e) && final(self)@ == (if old(
                    self,
                )@.created_at.value <= now.value && now.value >= old(self)@.expires_at.value {
                    ApprovalView { state: ApprovalState::Expired, ..old(self)@ }
                } else {
                    old(self)@
                }),
            },
    {
        if now.value < self.created_at.value {
            return Err(ApprovalError::InvalidDecisionTime);
        }
        if now.value >= self.expires_at.value {
            self.state = ApprovalState::Expired;
            return Err(ApprovalError::Expired);
        }
        match self.state {
            ApprovalState::Pending => Ok(()),
            ApprovalState::Granted => Err(ApprovalError::AlreadyGranted),
            ApprovalState::Rejected => Err(ApprovalError::Rejected),
            ApprovalState::Expired => Err(ApprovalError::Expired),
            ApprovalState::Consumed => Err(ApprovalError::AlreadyConsumed),
            ApprovalState::Invalidated => Err(ApprovalError::Invalidated),
        }
    }

    fn consume(
        &mut self,
        action: &ActionEnvelope,
        policy_version: &PolicyVersion,
        now: TimestampMillis,
    ) -> (r: Result<ApprovalId, ApprovalError>)
        ensures
            (final(self)@, r) == old(self)@.used(action@.fingerprint(), policy_version@, now),
    {
        match self.state {
            ApprovalState::Pending => {
                return Err(ApprovalError::NotGranted);
            },
            ApprovalState::Rejected => {
                return Err(ApprovalError::Rejected);
            },
            ApprovalState::Expired => {
                return Err(ApprovalError::Expired);
            },
            ApprovalState::Consumed => {
                return Err(ApprovalError::AlreadyConsumed);
            },
            ApprovalState::Invalidated => {
                return Err(ApprovalError::Invalidated);
            },
            ApprovalState::Granted => {},
        }
        if now.value >= self.expires_at.value {
            self.state = ApprovalState::Expired;
            return Err(ApprovalError::Expired);
        }
        if let Some(decided_at) = self.decided_at {
            if now.value < decided_at.value {
                return Err(ApprovalError::InvalidDecisionTime);
            }
        }
        if !action.fingerprint().same(&self.action_fingerprint) {
            self.state = ApprovalState::Invalidated;
            return Err(ApprovalError::ActionFingerprintMismatch);
        }
        if !policy_version.same(&self.policy_version) {
            self.state = ApprovalState::Invalidated;
            return Err(ApprovalError::PolicyVersionMismatch);
        }
        self.state = ApprovalState::Consumed;
        self.consumed_at = Some(now);
        Ok(self.id)
    }
}

/// What lets an action run.
#[derive(Clone, Copy, Debug, PartialEq, Eq, Structural)]
pub enum DispatchAuthorization {
    PolicyAllowed,
    Approved { approval_id: ApprovalId },
}

/// Why an action may not run.
#[derive(Clone, Debug, PartialEq, Eq)]
pub enum DispatchError {
    PolicyDenied(DenialReason),
    MissingApproval,
    Approval(ApprovalError),
}

/// The model of a `DispatchError`.
pub enum DispatchErrorView {
    PolicyDenied(DenialView),
    MissingApproval,
    Approval(ApprovalError),
}

impl View for DispatchError {
    type V = DispatchErrorView;

    open spec fn view(&self) -> DispatchErrorView {
        match *self {
            DispatchError::PolicyDenied(d) => DispatchErrorView::PolicyDenied(d@),
            DispatchError::MissingApproval => DispatchErrorView::MissingApproval,
            DispatchError::Approval(e) => DispatchErrorView::Approval(e),
        }
    }
}

impl DispatchErrorView {
    /// The message of the error.
    pub open spec fn message(self) -> Seq<char> {
        match self {
            DispatchErrorView::PolicyDenied(d) => "current policy denied dispatch: "@ + d.debug(),
            DispatchErrorView::MissingApproval => "current policy requires an approval"@,
            DispatchErrorView::Approval(e) => e.text(),
        }
    }
}

impl DispatchError {
    /// The message of the error.
    pub fn message(&self) -> (r: String)
        ensures
            r@ == self@.message(),
    {
        match self {
            DispatchError::PolicyDenied(d) => concat(
                "current policy denied dispatch: ",
                d.debug().as_str(),
            ),
            DispatchError::MissingApproval => "current policy requires an approval".to_owned(),
            DispatchError::Approval(e) => e.message().to_owned(),
        }
    }
}

/// The model of the outcome of a dispatch.
pub open spec fn dispatch_outcome(r: Result<DispatchAuthorization, DispatchError>) -> Result<
    DispatchAuthorization,
    DispatchErrorView,
> {
    match r {
        Ok(a) => Ok(a),
        Err(e) => Err(e@),
    }
}

/// The approval after a dispatch, and what the dispatch says: the decision
/// alone settles it, unless an approval is required, which is then used.
pub open spec fn dispatch(
    decision: DecisionView,
    fingerprint: Seq<char>,
    policy_version: Seq<char>,
    approval: Option<ApprovalView>,
    now: TimestampMillis,
) -> (Option<ApprovalView>, Result<DispatchAuthorization, DispatchErrorView>) {
    match decision {
        DecisionView::Deny(d) => (approval, Err(DispatchErrorView::PolicyDenied(d))),
        DecisionView::Allow => (approval, Ok(DispatchAuthorization::PolicyAllowed)),
        DecisionView::RequireApproval => match approval {
            None => (None, Err(DispatchErrorView::MissingApproval)),
            Some(a) => {
                let (after, outcome) = a.used(fingerprint, policy_version, now);
                (
                    Some(after),
                    match outcome {
                        Ok(approval_id) => Ok(DispatchAuthorization::Approved { approval_id }),
                        Err(e) => Err(DispatchErrorView::Approval(e)),
                    },
                )
            },
        },
    }
}

/// Decides whether `action` may run now. A required approval is used up.
pub fn authorize_dispatch(
    decision: &PolicyDecision,
    action: &ActionEnvelope,
    policy_version: &PolicyVersion,
    approval: Option<&mut ApprovalRequest>,
    now: TimestampMillis,
) -> (r: Result<DispatchAuthorization, DispatchError>)
    ensures
        match approval {
            Some(a) => (Some(final(a)@), dispatch_outcome(r)) == dispatch(
                decision@,
                action@.fingerprint(),
                policy_version@,
                Some((*a)@),
                now,
            ),
            None => (None::<ApprovalView>, dispatch_outcome(r)) == dispatch(
                decision@,
                action@.fingerprint(),
                policy_version@,
                None,
                now,
            ),
        },
{
    match decision {
        PolicyDecision::Deny(reason) => Err(DispatchError::PolicyDenied(reason.clone())),
        PolicyDecision::Allow => Ok(DispatchAuthorization::PolicyAllowed),
        PolicyDecision::RequireApproval => match approval {
            None => Err(DispatchError::MissingApproval),
            Some(a) => match a.consume(action, policy_version, now) {
                Ok(approval_id) => Ok(DispatchAuthorization::Approved { approval_id }),
                Err(e) => Err(DispatchError::Approval(e)),
            },
        },
    }
}

/// A request that is over stays over, and nothing is granted, rejected or
/// used from there on.
pub proof fn requests_that_are_over_stay_over(
    a: ApprovalView,
    outcome: ApprovalState,
    approver: PrincipalView,
    fingerprint: Seq<char>,
    policy_version: Seq<char>,
    now: TimestampMillis,
)
    requires
        a.is_over(),
    ensures
        a.decided(outcome, approver, now).1 is Err,
        a.decided(outcome, approver, now).0.is_over(),
        a.used(fingerprint, policy_version, now).1 is Err,
        a.used(fingerprint, policy_version, now).0 == a,
{
}

/// An approval is used at most once: after a use that succeeds, the request is
/// over.
pub proof fn approvals_are_used_once(
    a: ApprovalView,
    fingerprint: Seq<char>,
    policy_version: Seq<char>,
    now: TimestampMillis,
    other: Seq<char>,
    version: Seq<char>,
    later: TimestampMillis,
)
    requires
        a.used(fingerprint, policy_version, now).1 is Ok,
    ensures
        a.used(fingerprint, policy_version, now).0.is_over(),
        a.used(fingerprint, policy_version, now).0.used(other, version, later).1 == Err::<
            ApprovalId,
            _,
        >(ApprovalError::AlreadyConsumed),
{
}

/// What is used was granted, has not expired, and is for this very action
/// under this very version of the policy.
pub proof fn used_approvals_match(
    a: ApprovalView,
    fingerprint: Seq<char>,
    policy_version: Seq<char>,
    now: TimestampMillis,
)
    ensures
        a.used(fingerprint, policy_version, now).1 is Ok <==> {
            &&& a.state == ApprovalState::Granted
            &&& now.value < a.expires_at.value
            &&& (a.decided_at is Some ==> a.decided_at->0.value <= now.value)
            &&& a.action_fingerprint == fingerprint
            &&& a.policy_version == policy_version
        },
{
}

/// A dispatch goes ahead exactly if the policy allows the action, or asks for an
/// approval and is shown one that was granted, has not expired, and is for this
/// very action under this very version of the policy. That approval is then
/// used up, and nothing else uses one up.
pub proof fn dispatches_need_a_decision_or_an_approval(
    decision: DecisionView,
    fingerprint: Seq<char>,
    policy_version: Seq<char>,
    approval: Option<ApprovalView>,
    now: TimestampMillis,
)
    ensures
        ({
            let (after, r) = dispatch(decision, fingerprint, policy_version, approval, now);
            &&& r is Ok <==> decision is Allow || (decision is RequireApproval && (approval matches
                Some(a) && a.state == ApprovalState::Granted && now.value < a.expires_at.value && (
            a.decided_at is None || a.decided_at->0.value <= now.value) && a.action_fingerprint
                == fingerprint && a.policy_version == policy_version))
            &&& r == Ok::<DispatchAuthorization, DispatchErrorView>(
                DispatchAuthorization::PolicyAllowed,
            ) <==> decision is Allow
            &&& r is Ok && decision is RequireApproval ==> {
                &&& r->Ok_0 == (DispatchAuthorization::Approved { approval_id: approval->0.id })
                &&& after is Some && after->0.state == ApprovalState::Consumed
                &&& after->0.consumed_at == Some(now)
            }
            &&& !(decision is RequireApproval) ==> after == approval
            &&& approval matches Some(a) ==> (a.state != ApprovalState::Granted ==> after
                == approval)
        }),
{
}

/// A decision is taken exactly while the request is pending and within its time,
/// and says who took it and when. One that comes too late expires the request,
/// and one that is refused otherwise changes nothing.
pub proof fn decisions_are_taken_in_time(
    a: ApprovalView,
    outcome: ApprovalState,
    approver: PrincipalView,
    now: TimestampMillis,
)
    ensures
        ({
            let (after, r) = a.decided(outcome, approver, now);
            &&& r is Ok <==> a.state == ApprovalState::Pending && a.created_at.value <= now.value
                && now.value < a.expires_at.value
            &&& r is Ok ==> {
                &&& after.state == outcome
                &&& after.decided_by == Some(approver) && after.decided_at == Some(now)
                &&& after.id == a.id && after.action_fingerprint == a.action_fingerprint
                &&& after.policy_version == a.policy_version
                &&& after.created_at == a.created_at && after.expires_at == a.expires_at
                &&& after.consumed_at == a.consumed_at
            }
            &&& r is Err ==> after.decided_by == a.decided_by && after.consumed_at == a.consumed_at
            &&& r is Err && now.value < a.expires_at.value ==> after == a
            &&& a.created_at.value <= now.value && a.expires_at.value <= now.value ==> r == Err::<
                (),
                ApprovalError,
            >(ApprovalError::Expired) && after.state == ApprovalState::Expired
        }),
{
}

} // verus!
