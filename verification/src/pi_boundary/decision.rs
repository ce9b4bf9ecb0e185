//! Policy decisions: allow with obligations, deny with a reason, or wait for a
//! human.

use super::POLICY_DECISION_VERSION;
use vstd::prelude::*;

verus! {

/// A typed reason for a denial.
#[derive(Clone, Debug, PartialEq, Eq)]
pub struct DenyReason {
    pub code: String,
    pub detail: String,
}

/// The model of a `DenyReason`.
pub struct DenyView {
    pub code: Seq<char>,
    pub detail: Seq<char>,
}

impl View for DenyReason {
    type V = DenyView;

    open spec fn view(&self) -> DenyView {
        DenyView { code: self.code@, detail: self.detail@ }
    }
}

/// A denial with the given code.
pub open spec fn deny(code: Seq<char>, detail: Seq<char>) -> DenyView {
    DenyView { code, detail }
}

impl DenyReason {
    fn with_code(code: &str, detail: String) -> (r: DenyReason)
        ensures
            r@ == deny(code@, detail@),
    {
        DenyReason { code: code.to_owned(), detail }
    }

    pub fn no_lease(detail: String) -> (r: DenyReason)
        ensures
            r@ == deny("no_lease_for_action"@, detail@),
    {
        DenyReason::with_code("no_lease_for_action", detail)
    }

    pub fn unknown_lease(detail: String) -> (r: DenyReason)
        ensures
            r@ == deny("unknown_lease"@, detail@),
    {
        DenyReason::with_code("unknown_lease", detail)
    }

    pub fn lease_expired(detail: String) -> (r: DenyReason)
        ensures
            r@ == deny("lease_expired"@, detail@),
    {
        DenyReason::with_code("lease_expired", detail)
    }

    pub fn lease_revoked(detail: String) -> (r: DenyReason)
        ensures
            r@ == deny("lease_revoked"@, detail@),
    {
        DenyReason::with_code("lease_revoked", detail)
    }

    pub fn scope_exceeded(detail: String) -> (r: DenyReason)
        ensures
            r@ == deny("scope_exceeded"@, detail@),
    {
        DenyReason::with_code("scope_exceeded", detail)
    }

    pub fn subject_mismatch(detail: String) -> (r: DenyReason)
        ensures
            r@ == deny("subject_mismatch"@, detail@),
    {
        DenyReason::with_code("subject_mismatch", detail)
    }

    pub fn replay_detected(detail: String) -> (r: DenyReason)
        ensures
            r@ == deny("replay_detected"@, detail@),
    {
        DenyReason::with_code("replay_detected", detail)
    }

    pub fn expired_action(detail: String) -> (r: DenyReason)
        ensures
            r@ == deny("expired_action"@, detail@),
    {
        DenyReason::with_code("expired_action", detail)
    }

    pub fn invalid_envelope(detail: String) -> (r: DenyReason)
        ensures
            r@ == deny("invalid_envelope"@, detail@),
    {
        DenyReason::with_code("invalid_envelope", detail)
    }
}

/// What whoever runs an allowed action has to do.
#[derive(Clone, Debug, PartialEq, Eq)]
pub enum Obligation {
    TruncateOutput { max_bytes: u64 },
    RedactSecrets,
    RequireSandboxProfile { profile: String },
    SettleBudget { reservation_id: String, lease_id: String, action_id: String },
}

/// The model of an `Obligation`.
pub enum ObligationView {
    TruncateOutput { max_bytes: u64 },
    RedactSecrets,
    RequireSandboxProfile { profile: Seq<char> },
    SettleBudget { reservation_id: Seq<char>, lease_id: Seq<char>, action_id: Seq<char> },
}

impl View for Obligation {
    type V = ObligationView;

    open spec fn view(&self) -> ObligationView {
        match *self {
            Obligation::TruncateOutput { max_bytes } => ObligationView::TruncateOutput {
                max_bytes,
            },
            Obligation::RedactSecrets => ObligationView::RedactSecrets,
            Obligation::RequireSandboxProfile { profile } => ObligationView::RequireSandboxProfile {
                profile: profile@,
            },
            Obligation::SettleBudget { reservation_id, lease_id, action_id } =>
                ObligationView::SettleBudget {
                    reservation_id: reservation_id@,
                    lease_id: lease_id@,
                    action_id: action_id@,
                },
        }
    }
}

/// The models of a list of obligations.
pub open spec fn obligation_views(v: Seq<Obligation>) -> Seq<ObligationView> {
    v.map_values(|o: Obligation| o@)
}

/// How a decision came out. There is no outcome by default.
#[allow(inconsistent_fields)]
#[derive(Clone, Debug, PartialEq)]
pub enum DecisionOutcome {
    Allow { obligations: Vec<Obligation> },
    Deny { reason: DenyReason },
    PendingApproval { approval_id: String, reason: String },
}

/// A decision on one action.
#[derive(Clone, Debug, PartialEq)]
pub struct PolicyDecision {
    pub version: u32,
    pub outcome: DecisionOutcome,
}

/// The model of a decision's outcome.
pub enum OutcomeView {
    Allow(Seq<ObligationView>),
    Deny(DenyView),
    Pending { approval_id: Seq<char>, reason: Seq<char> },
}

/// The model of a `PolicyDecision`.
pub struct DecisionView {
    pub version: u32,
    pub outcome: OutcomeView,
}

impl View for PolicyDecision {
    type V = DecisionView;

    open spec fn view(&self) -> DecisionView {
        DecisionView {
            version: self.version,
            outcome: match self.outcome {
                DecisionOutcome::Allow { obligations } => OutcomeView::Allow(
                    obligation_views(obligations@),
                ),
                DecisionOutcome::Deny { reason } => OutcomeView::Deny(reason@),
                DecisionOutcome::PendingApproval { approval_id, reason } => OutcomeView::Pending {
                    approval_id: approval_id@,
                    reason: reason@,
                },
            },
        }
    }
}

/// A decision of the current version.
pub open spec fn decided(outcome: OutcomeView) -> DecisionView {
    DecisionView { version: POLICY_DECISION_VERSION, outcome }
}

impl DecisionView {
    /// One word for the outcome.
    pub open spec fn summary(self) -> Seq<char> {
        match self.outcome {
            OutcomeView::Allow(_) => "allow"@,
            OutcomeView::Deny(_) => "deny"@,
            OutcomeView::Pending { .. } => "pending"@,
        }
    }
}

impl PolicyDecision {
    /// Allows an action under the given obligations.
    pub fn allow(obligations: Vec<Obligation>) -> (r: PolicyDecision)
        ensures
            r@ == decided(OutcomeView::Allow(obligation_views(obligations@))),
    {
        PolicyDecision {
            version: POLICY_DECISION_VERSION,
            outcome: DecisionOutcome::Allow { obligations },
        }
    }

    /// Denies an action.
    pub fn deny(reason: DenyReason) -> (r: PolicyDecision)
        ensures
            r@ == decided(OutcomeView::Deny(reason@)),
    {
        PolicyDecision {
            version: POLICY_DECISION_VERSION,
            outcome: DecisionOutcome::Deny { reason },
        }
    }

    /// Leaves an action to a human.
    pub fn pending_approval(approval_id: String, reason: String) -> (r: PolicyDecision)
        ensures
            r@ == decided(
                OutcomeView::Pending { approval_id: approval_id@, reason: reason@ },
            ),
    {
        PolicyDecision {
            version: POLICY_DECISION_VERSION,
            outcome: DecisionOutcome::PendingApproval { approval_id, reason },
        }
    }

    /// Whether the action is allowed.
    pub fn is_allow(&self) -> (r: bool)
        ensures
            r == (self@.outcome is Allow),
    {
        matches!(self.outcome, DecisionOutcome::Allow { .. })
    }

    /// One word for the outcome.
    pub fn summary(&self) -> (r: &'static str)
        ensures
            r@ == self@.summary(),
    {
        match &self.outcome {
            DecisionOutcome::Allow { .. } => "allow",
            DecisionOutcome::Deny { .. } => "deny",
            DecisionOutcome::PendingApproval { .. } => "pending",
        }
    }
}

} // verus!
