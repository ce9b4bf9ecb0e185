//! What operators may do with an orchestration.

use crate::approval::TimestampMillis;
use crate::identity::{PrincipalId, WorkspaceId};
use crate::model::ReasoningProfile;
use crate::orchestration::OrchestrationId;
use vstd::prelude::*;

verus! {

/// What an operator asks for.
#[derive(Clone, Copy, Debug, PartialEq, Eq, PartialOrd, Ord, Hash, Structural)]
pub enum OperatorOperation {
    Read,
    Create,
    Cancel,
    Retry,
    Reassign,
    Narrow,
    Pin,
}

/// A request for authority.
#[derive(Clone, Debug, PartialEq, Eq)]
pub struct AuthorityRequest {
    pub workspace_id: WorkspaceId,
    pub actor: PrincipalId,
    pub operation: OperatorOperation,
    pub orchestration_id: Option<OrchestrationId>,
}

/// Why an operator is refused.
#[derive(Debug, PartialEq, Eq)]
pub enum OperatorError {
    InvalidPolicy,
    Backend(String),
}

/// The model of an `OperatorError`.
pub enum OperatorErrorView {
    InvalidPolicy,
    Backend(Seq<char>),
}

impl View for OperatorError {
    type V = OperatorErrorView;

    open spec fn view(&self) -> OperatorErrorView {
        match *self {
            OperatorError::InvalidPolicy => OperatorErrorView::InvalidPolicy,
            OperatorError::Backend(s) => OperatorErrorView::Backend(s@),
        }
    }
}

impl OperatorErrorView {
    /// The message of the error.
    pub open spec fn message(self) -> Seq<char> {
        match self {
            OperatorErrorView::InvalidPolicy => "invalid orchestration control policy"@,
            OperatorErrorView::Backend(s) => "authority backend: "@ + s,
        }
    }
}

impl OperatorError {
    /// The message of the error.
    pub fn message(&self) -> (r: String)
        ensures
            r@ == self@.message(),
    {
        match self {
            OperatorError::InvalidPolicy => "invalid orchestration control policy".to_owned(),
            OperatorError::Backend(s) => {
                let mut out = "authority backend: ".to_owned();
                out.append(s.as_str());
                out
            },
        }
    }
}

/// How an orchestration may be run.
#[derive(Clone, Copy, Debug, PartialEq, Eq, Structural)]
pub struct OrchestrationControlPolicy {
    pub orchestration_id: OrchestrationId,
    pub revision: u64,
    pub remote_allowed: bool,
    pub prefer_local: bool,
    pub reasoning: ReasoningProfile,
    pub created_at: TimestampMillis,
}

/// The number that follows, or the greatest.
pub open spec fn next_revision(n: u64) -> int {
    if n < u64::MAX {
        n + 1
    } else {
        n as int
    }
}

impl OrchestrationControlPolicy {
    /// The policy is the next revision of `o` and allows nothing that `o` does
    /// not allow.
    pub open spec fn tightens(self, o: OrchestrationControlPolicy) -> bool {
        &&& self.orchestration_id == o.orchestration_id
        &&& self.revision == next_revision(o.revision)
        &&& self.remote_allowed ==> o.remote_allowed
        &&& self.reasoning == o.reasoning
    }

    /// Checks and takes the parts.
    pub fn new(
        orchestration_id: OrchestrationId,
        revision: u64,
        remote_allowed: bool,
        prefer_local: bool,
        reasoning: ReasoningProfile,
        created_at: TimestampMillis,
    ) -> (r: Result<OrchestrationControlPolicy, OperatorError>)
        ensures
            match r {
                Ok(p) => revision > 0 && p == (OrchestrationControlPolicy {
                    orchestration_id,
                    revision,
                    remote_allowed,
                    prefer_local,
                    reasoning,
                    created_at,
                }),
                Err(e) => revision == 0 && e == OperatorError::InvalidPolicy,
            },
    {
        if revision == 0 {
            return Err(OperatorError::InvalidPolicy);
        }
        Ok(
            OrchestrationControlPolicy {
                orchestration_id,
                revision,
                remote_allowed,
                prefer_local,
                reasoning,
                created_at,
            },
        )
    }

    /// Whether the policy is the next revision of `o` and allows nothing that
    /// `o` does not allow.
    pub fn is_tightening_of(&self, o: &OrchestrationControlPolicy) -> (r: bool)
        ensures
            r == self.tightens(*o),
    {
        let next = o.revision.saturating_add(1);
        self.orchestration_id == o.orchestration_id && self.revision == next && (
        !self.remote_allowed || o.remote_allowed) && self.reasoning == o.reasoning
    }
}

/// Once remote models are ruled out, no tightening lets them in again.
pub proof fn tightening_never_widens(
    a: OrchestrationControlPolicy,
    b: OrchestrationControlPolicy,
    c: OrchestrationControlPolicy,
)
    requires
        b.tightens(a),
        c.tightens(b),
        !a.remote_allowed,
    ensures
        !b.remote_allowed,
        !c.remote_allowed,
        c.reasoning == a.reasoning,
{
}

/// A policy tightens another exactly if it is of the same orchestration and one
/// revision later, keeps the reasoning, and does not turn remote work on.
pub proof fn tightening_is_one_step(
    a: OrchestrationControlPolicy,
    b: OrchestrationControlPolicy,
)
    requires
        a.revision < u64::MAX,
    ensures
        b.tightens(a) <==> {
            &&& b.orchestration_id == a.orchestration_id
            &&& b.revision == a.revision + 1
            &&& b.reasoning == a.reasoning
            &&& !(b.remote_allowed && !a.remote_allowed)
        },
{
}

} // verus!
