//! The decision on one action against the leases it presents.

use super::action::{
    action_of, action_outcome, exact_scopes_hold_what_is_declared, grants_what_is_declared,
    one_execution, one_execution_budget, resolution_views, resolved_by, ActionView,
    CanonicalAction, Resolutions,
};
use super::chain::{chain_ids, document_check, lease_views, validate_chain, validated, walk};
use super::session::{
    use_recorded, IssuerKeyResolver, LeaseResolver, OneShotTracker, RegistryView, RevocationIndex,
    RevocationView, SessionRegistry,
};
use super::{lease_unit, LeaseDocument, LeaseError, LeaseErrorView, LeaseView};
use crate::budget::{BudgetLedger, ExecutionReservation, ExecutionView, LedgerView};
use crate::canonical::path::PathResolver;
use crate::ids::{prefixed_id, random_uuid, uuid_text, uuid_to_text};
use crate::nonce::{
    presented, saturating_add, saturating_sub, saturating_sum, NonceStore, NoncesView,
};
use crate::pi_boundary::decision::{
    decided, deny, obligation_views, DecisionView, DenyView, ObligationView, OutcomeView,
};
use crate::pi_boundary::envelope::{EnvelopeView, LeaseId};
use crate::pi_boundary::{
    ActionEnvelope, DecisionOutcome, DenyReason, Obligation, PolicyDecision,
};
use crate::text::{concat, str_eq, surround, texts};
use vstd::prelude::*;

verus! {

/// A request to a human for the approval of an action that no lease covers.
#[derive(Clone, Debug, PartialEq, Eq)]
pub struct VhlRequest {
    pub request_id: String,
    pub action_digest: String,
    pub session_subject: String,
    pub nonce: String,
    pub expires_at_ms: i64,
}

/// The model of a `VhlRequest`.
pub struct RequestView {
    pub request_id: Seq<char>,
    pub action_digest: Seq<char>,
    pub session_subject: Seq<char>,
    pub nonce: Seq<char>,
    pub expires_at_ms: i64,
}

impl View for VhlRequest {
    type V = RequestView;

    open spec fn view(&self) -> RequestView {
        RequestView {
            request_id: self.request_id@,
            action_digest: self.action_digest@,
            session_subject: self.session_subject@,
            nonce: self.nonce@,
            expires_at_ms: self.expires_at_ms,
        }
    }
}

/// Where requests for approval go.
pub trait ApprovalOutbox {
    /// The requests so far.
    spec fn requests(&self) -> Seq<RequestView>;

    /// Adds a request.
    fn post(&mut self, req: VhlRequest)
        ensures
            final(self).requests() == old(self).requests().push(req@),
    ;
}

/// Requests in memory.
#[derive(Debug)]
pub struct Outbox {
    pub pending: Vec<VhlRequest>,
}

impl Outbox {
    /// No requests.
    pub fn new() -> (r: Outbox)
        ensures
            r.requests() == Seq::<RequestView>::empty(),
    {
        let r = Outbox { pending: Vec::new() };
        proof {
            assert(r.requests() =~= Seq::<RequestView>::empty());
        }
        r
    }
}

impl ApprovalOutbox for Outbox {
    open spec fn requests(&self) -> Seq<RequestView> {
        self.pending@.map_values(|r: VhlRequest| r@)
    }

    fn post(&mut self, req: VhlRequest) {
        let ghost before = self.requests();
        let ghost r = req@;
        self.pending.push(req);
        proof {
            assert(self.requests() =~= before.push(r));
        }
    }
}

/// How an authorization is made.
#[derive(Clone, Copy, Debug)]
pub struct AuthorizeParams {
    pub now_ms: i64,
    pub case_insensitive_fs: bool,
    /// Whether a human is asked where no lease is presented.
    pub allow_approval_fallback: bool,
    /// How long such a request stands.
    pub approval_ttl_ms: i64,
}

/// What a single-use lease is refused for before it is used.
pub open spec fn single_use_check(doc: LeaseView, now_ms: i64) -> Result<(), LeaseErrorView> {
    if !doc.limits.single_use {
        Err(LeaseErrorView::NotSingleUse(doc.lease_id))
    } else if !doc.live_at(now_ms) {
        Err(LeaseErrorView::AlreadyExpired)
    } else {
        Ok(())
    }
}

/// Uses up a single-use lease. A second use is a replay.
pub fn consume_single_use<T: OneShotTracker>(doc: &LeaseDocument, tracker: &mut T, now_ms: i64) -> (r:
    Result<(), LeaseError>)
    ensures
        match single_use_check(doc@, now_ms) {
            Err(e) => lease_unit(r) == Err::<(), LeaseErrorView>(e) && *final(tracker) == *old(
                tracker,
            ),
            Ok(_) => use_recorded(*old(tracker), *final(tracker), doc@.lease_id, r is Ok) && (
            r matches Err(e) ==> e@ == LeaseErrorView::AlreadyConsumed(doc@.lease_id)),
        },
{
    if !doc.limits.single_use {
        return Err(LeaseError::NotSingleUse(doc.lease_id.clone()));
    }
    if !doc.live_at(now_ms) {
        return Err(LeaseError::AlreadyExpired);
    }
    if !tracker.consume(doc.lease_id.as_str()) {
        return Err(LeaseError::AlreadyConsumed(doc.lease_id.clone()));
    }
    Ok(())
}

/// The obligation to settle an execution's reservation.
pub open spec fn settlement(reservation: ExecutionView, lease_id: Seq<char>) -> ObligationView {
    ObligationView::SettleBudget {
        reservation_id: reservation.id,
        lease_id,
        action_id: reservation.action_id,
    }
}

/// The obligation to settle an execution's reservation.
pub fn execution_settlement_obligation(reservation: &ExecutionReservation, lease_id: &str) -> (r:
    Obligation)
    ensures
        r@ == settlement(reservation@, lease_id@),
{
    Obligation::SettleBudget {
        reservation_id: reservation.id.clone(),
        lease_id: lease_id.to_owned(),
        action_id: reservation.action_id.clone(),
    }
}

/// The reservation of the first settlement obligation from position `i` on.
pub open spec fn first_reservation(o: Seq<ObligationView>, i: int) -> Option<Seq<char>>
    decreases o.len() - i,
{
    if i < 0 || i >= o.len() {
        None
    } else {
        match o[i] {
            ObligationView::SettleBudget { reservation_id, .. } => Some(reservation_id),
            _ => first_reservation(o, i + 1),
        }
    }
}

/// The execution reservation that an allowing decision carries.
pub fn execution_reservation_id(decision: &PolicyDecision) -> (r: Option<&str>)
    ensures
        (match r {
            Some(s) => Some(s@),
            None => None,
        }) == (match decision@.outcome {
            OutcomeView::Allow(o) => first_reservation(o, 0),
            _ => None,
        }),
{
    match &decision.outcome {
        DecisionOutcome::Allow { obligations } => {
            let ghost o = obligation_views(obligations@);
            let mut i: usize = 0;
            while i < obligations.len()
                invariant
                    i <= obligations@.len(),
                    o == obligation_views(obligations@),
                    decision@.outcome == OutcomeView::Allow(o),
                    first_reservation(o, 0) == first_reservation(o, i as int),
                decreases obligations@.len() - i,
            {
                proof {
                    assert(o[i as int] == obligations@[i as int]@);
                }
                if let Obligation::SettleBudget { reservation_id, .. } = &obligations[i] {
                    return Some(reservation_id.as_str());
                }
                i += 1;
            }
            None
        },
        _ => None,
    }
}

/// The denial for a chain that does not validate.
pub open spec fn chain_denial(e: LeaseErrorView) -> DenyView {
    match e {
        LeaseErrorView::NotFound(id) => deny("unknown_lease"@, id),
        LeaseErrorView::Revoked(id) => deny("lease_revoked"@, id),
        LeaseErrorView::AlreadyConsumed(id) => deny(
            "replay_detected"@,
            "one-shot lease "@ + id + " already consumed"@,
        ),
        LeaseErrorView::IssuerMismatch(issuer, parent) => deny(
            "subject_mismatch"@,
            "issuer "@ + issuer + " does not match parent subject "@ + parent,
        ),
        LeaseErrorView::UnknownKey(subject) => deny(
            "subject_mismatch"@,
            "unknown session key for "@ + subject,
        ),
        LeaseErrorView::UnknownIssuerGeneration(id) => deny(
            "subject_mismatch"@,
            "unknown issuer generation "@ + id,
        ),
        LeaseErrorView::KilledIssuerGeneration(id) => deny(
            "invalid_envelope"@,
            "issuer generation "@ + id + " killed"@,
        ),
        LeaseErrorView::ExceedsMaxLifetime(_, _) => deny(
            "invalid_envelope"@,
            "lease invalid: "@ + e.message(),
        ),
        _ => deny("invalid_envelope"@, "lease chain invalid: "@ + e.message()),
    }
}

fn deny_reason_for_chain_error(e: &LeaseError) -> (r: DenyReason)
    ensures
        r@ == chain_denial(e@),
{
    match e {
        LeaseError::NotFound(id) => DenyReason::unknown_lease(id.clone()),
        LeaseError::Revoked(id) => DenyReason::lease_revoked(id.clone()),
        LeaseError::AlreadyConsumed(id) => DenyReason::replay_detected(
            surround("one-shot lease ", id.as_str(), " already consumed"),
        ),
        LeaseError::IssuerMismatch(issuer, parent) => {
            let mut t = surround("issuer ", issuer.as_str(), " does not match parent subject ");
            t.append(parent.as_str());
            DenyReason::subject_mismatch(t)
        },
        LeaseError::UnknownKey(subject) => DenyReason::subject_mismatch(
            concat("unknown session key for ", subject.as_str()),
        ),
        LeaseError::UnknownIssuerGeneration(id) => DenyReason::subject_mismatch(
            concat("unknown issuer generation ", id.as_str()),
        ),
        LeaseError::KilledIssuerGeneration(id) => DenyReason::invalid_envelope(
            surround("issuer generation ", id.as_str(), " killed"),
        ),
        LeaseError::ExceedsMaxLifetime(_, _) => DenyReason::invalid_envelope(
            concat("lease invalid: ", e.message().as_str()),
        ),
        _ => DenyReason::invalid_envelope(
            concat("lease chain invalid: ", e.message().as_str()),
        ),
    }
}

/// What an authorization changes, apart from the use of single-use leases.
pub struct AuthorityView {
    pub nonces: NoncesView,
    pub ledger: LedgerView,
    pub outbox: Seq<RequestView>,
}

/// An authorization: what it changes, whether it went to use up the leaf
/// lease, and its decision.
pub struct Verdict {
    pub state: AuthorityView,
    pub consumed: bool,
    pub decision: DecisionView,
}

/// The texts of lease identities.
pub open spec fn id_texts(ids: Seq<LeaseId>) -> Seq<Seq<char>> {
    ids.map_values(|id: LeaseId| id.text())
}

/// The key under which an action is honoured once.
pub open spec fn envelope_nonce(env: EnvelopeView) -> Seq<char> {
    uuid_text(env.action_id) + ":"@ + env.nonce
}

/// How long the nonce of an action is kept: until the action expires, and for
/// a millisecond at least.
pub open spec fn nonce_ttl(env: EnvelopeView, now_ms: i64) -> i64 {
    let left = saturating_sum(env.expires_at_ms as int, -(now_ms as int));
    if left < 1 {
        1
    } else {
        left as i64
    }
}

/// A denial that changes nothing but the given state.
pub open spec fn denied(state: AuthorityView, d: DenyView) -> Verdict {
    Verdict { state, consumed: false, decision: decided(OutcomeView::Deny(d)) }
}

/// The verdict where no lease is presented: a human is asked, or the action is
/// denied.
pub open spec fn without_lease(
    action: ActionView,
    env: EnvelopeView,
    params: AuthorizeParams,
    request_id: Seq<char>,
    s: AuthorityView,
) -> Verdict {
    if !params.allow_approval_fallback {
        denied(s, deny("no_lease_for_action"@, "no covering lease"@))
    } else {
        Verdict {
            state: AuthorityView {
                outbox: s.outbox.push(
                    RequestView {
                        request_id,
                        action_digest: action.digest,
                        session_subject: env.session_id,
                        nonce: env.nonce,
                        expires_at_ms: saturating_sum(
                            params.now_ms as int,
                            params.approval_ttl_ms as int,
                        ) as i64,
                    },
                ),
                ..s
            },
            consumed: false,
            decision: decided(
                OutcomeView::Pending {
                    approval_id: request_id,
                    reason: "no covering lease; human approval requested"@,
                },
            ),
        }
    }
}

/// What an action is denied for under its leaf lease: another session's lease,
/// an approval of another action, or a scope that does not cover the action.
pub open spec fn leaf_check(leaf: LeaseView, action: ActionView, env: EnvelopeView) -> Result<
    (),
    DenyView,
> {
    if leaf.subject != env.session_id {
        Err(
            deny(
                "subject_mismatch"@,
                "leaf lease subject "@ + leaf.subject + " does not match envelope session "@
                    + env.session_id,
            ),
        )
    } else {
        let unleased = env.with_chain(Seq::empty()).digest();
        if leaf.limits.single_use && unleased is Err {
            Err(
                deny(
                    "invalid_envelope"@,
                    "cannot digest presented action: "@ + unleased->Err_0.message(),
                ),
            )
        } else if leaf.limits.single_use && leaf.approved_action_digest != Some(unleased->Ok_0) {
            Err(
                deny(
                    "scope_exceeded"@,
                    "one-shot lease is not bound to the presented action"@,
                ),
            )
        } else {
            match action.exact_scope().subset(leaf.scope) {
                Err(e) => Err(
                    deny("scope_exceeded"@, "action not covered by lease: "@ + e.message()),
                ),
                Ok(_) => Ok(()),
            }
        }
    }
}

/// The verdict once an execution is held under the leaf lease, and a single-use
/// leaf was used up: `won` says whether this was its first use. A lost use
/// gives the hold back.
pub open spec fn concluded(
    leaf: LeaseView,
    reservation: ExecutionView,
    won: bool,
    now_ms: i64,
    s: AuthorityView,
) -> Verdict {
    if leaf.limits.single_use && !won {
        Verdict {
            state: AuthorityView {
                ledger: s.ledger.release_execution(reservation.id, now_ms).0,
                ..s
            },
            consumed: true,
            decision: decided(
                OutcomeView::Deny(
                    deny(
                        "replay_detected"@,
                        "one-shot lease "@ + leaf.lease_id + " already consumed"@,
                    ),
                ),
            ),
        }
    } else {
        Verdict {
            state: s,
            consumed: leaf.limits.single_use,
            decision: decided(
                OutcomeView::Allow(
                    Seq::<ObligationView>::empty().push(settlement(reservation, leaf.lease_id)),
                ),
            ),
        }
    }
}

/// The verdict once the leaf lease covers the action: one execution is held,
/// then a single-use lease is used up. `won` says whether this was its first
/// use.
pub open spec fn held(
    leaf: LeaseView,
    env: EnvelopeView,
    now_ms: i64,
    won: bool,
    reservation_id: Seq<char>,
    s: AuthorityView,
) -> Verdict {
    let r = s.ledger.reserve_execution(
        reservation_id,
        leaf.lease_id,
        uuid_text(env.action_id),
        one_execution(),
        envelope_nonce(env),
        now_ms,
    );
    let after = AuthorityView { ledger: r.0, ..s };
    match r.1 {
        Err(e) => denied(
            after,
            deny("scope_exceeded"@, "lease budget exhausted: "@ + e.message()),
        ),
        Ok(reservation) => concluded(leaf, reservation, won, now_ms, after),
    }
}

/// What becomes of the tracker: it is touched only where a single-use leaf is
/// used up, and then holds that use.
pub open spec fn tracker_after<T: OneShotTracker>(
    before: T,
    after: T,
    env: EnvelopeView,
    v: Verdict,
    won: bool,
) -> bool {
    if v.consumed {
        use_recorded(before, after, id_texts(env.lease_chain)[0], won)
    } else {
        after == before
    }
}

/// The verdict on an action that was canonicalized.
pub open spec fn authorized<L: LeaseResolver, K: IssuerKeyResolver, T: OneShotTracker>(
    env: EnvelopeView,
    action: Result<ActionView, LeaseErrorView>,
    leases: L,
    revocations: RevocationView,
    sessions: RegistryView,
    issuers: K,
    one_shot: T,
    won: bool,
    reservation_id: Seq<char>,
    request_id: Seq<char>,
    params: AuthorizeParams,
    s: AuthorityView,
) -> Verdict {
    match action {
        Err(e) => denied(s, deny("invalid_envelope"@, "envelope rejected: "@ + e.message())),
        Ok(a) => if params.now_ms >= env.expires_at_ms {
            denied(s, deny("expired_action"@, "action past its hard deadline"@))
        } else if env.lease_chain.len() == 0 {
            without_lease(a, env, params, request_id, s)
        } else {
            let n = presented(
                s.nonces,
                envelope_nonce(env),
                params.now_ms,
                nonce_ttl(env, params.now_ms),
            );
            let seen = AuthorityView { nonces: n.0, ..s };
            match n.1 {
                Err(e) => denied(
                    seen,
                    deny("replay_detected"@, "replay rejected: "@ + e.message()),
                ),
                Ok(_) => match validated(
                    leases,
                    id_texts(env.lease_chain),
                    revocations,
                    sessions,
                    issuers,
                    one_shot,
                    params.now_ms,
                ) {
                    Err(e) => denied(seen, chain_denial(e)),
                    Ok(chain) => match leaf_check(chain[0], a, env) {
                        Err(d) => denied(seen, d),
                        Ok(_) => held(chain[0], env, params.now_ms, won, reservation_id, seen),
                    },
                },
            }
        },
    }
}

fn chain_texts(ids: &Vec<LeaseId>) -> (r: Vec<String>)
    ensures
        texts(r@) == id_texts(ids@),
{
    let mut out: Vec<String> = Vec::new();
    let mut i: usize = 0;
    while i < ids.len()
        invariant
            i <= ids@.len(),
            out@.len() == i,
            forall|k: int| 0 <= k < i ==> (#[trigger] out@[k])@ == ids@[k].text(),
        decreases ids@.len() - i,
    {
        out.push(ids[i].to_text());
        i += 1;
    }
    proof {
        assert(texts(out@) =~= id_texts(ids@));
    }
    out
}

fn check_leaf(leaf: &LeaseDocument, action: &CanonicalAction, env: &ActionEnvelope) -> (r: Result<
    (),
    DenyReason,
>)
    requires
        action.wf(),
        leaf@.scope.wf(),
    ensures
        (match r {
            Ok(_) => Ok::<(), DenyView>(()),
            Err(d) => Err(d@),
        }) == leaf_check(leaf@, action@, env@),
{
    if !str_eq(leaf.subject.as_str(), env.session_id.as_str()) {
        let mut t = surround(
            "leaf lease subject ",
            leaf.subject.as_str(),
            " does not match envelope session ",
        );
        t.append(env.session_id.as_str());
        return Err(DenyReason::subject_mismatch(t));
    }
    if leaf.limits.single_use {
        let digest = match env.unleased_digest() {
            Ok(d) => d,
            Err(e) => {
                return Err(
                    DenyReason::invalid_envelope(
                        concat("cannot digest presented action: ", e.message().as_str()),
                    ),
                );
            },
        };
        let bound = match &leaf.approved_action_digest {
            Some(d) => str_eq(d.as_str(), digest.as_str()),
            None => false,
        };
        if !bound {
            return Err(
                DenyReason::scope_exceeded(
                    "one-shot lease is not bound to the presented action".to_owned(),
                ),
            );
        }
    }
    match action.exact_scope().is_subset_of(&leaf.scope) {
        Ok(_) => Ok(()),
        Err(e) => Err(
            DenyReason::scope_exceeded(
                concat("action not covered by lease: ", e.message().as_str()),
            ),
        ),
    }
}

/// Authorizes one canonicalized action, with the given identities for what it
/// creates. There is no default allow: the envelope has to be well formed and
/// fresh, the chain valid, the leaf lease this session's and wide enough, and
/// its budget sufficient. A single-use lease is used up last of all.
pub fn authorize_action<
    L: LeaseResolver,
    K: IssuerKeyResolver,
    T: OneShotTracker,
    O: ApprovalOutbox,
>(
    env: &ActionEnvelope,
    action: Result<CanonicalAction, LeaseError>,
    leases: &L,
    revocations: &RevocationIndex,
    sessions: &SessionRegistry,
    issuers: &K,
    one_shot: &mut T,
    nonces: &mut NonceStore,
    ledger: &mut BudgetLedger,
    outbox: &mut O,
    params: &AuthorizeParams,
    reservation_id: String,
    request_id: String,
) -> (r: PolicyDecision)
    requires
        sessions.wf(),
        old(ledger).wf(),
        action matches Ok(a) ==> a.wf(),
    ensures
        final(ledger).wf(),
        exists|won: bool|
            ({
                let v = #[trigger] authorized(
                    env@,
                    action_outcome(action),
                    *leases,
                    revocations@,
                    sessions@,
                    *issuers,
                    *old(one_shot),
                    won,
                    reservation_id@,
                    request_id@,
                    *params,
                    AuthorityView {
                        nonces: old(nonces)@,
                        ledger: old(ledger)@,
                        outbox: old(outbox).requests(),
                    },
                );
                &&& r@ == v.decision
                &&& final(nonces)@ == v.state.nonces
                &&& final(ledger)@ == v.state.ledger
                &&& final(outbox).requests() == v.state.outbox
                &&& tracker_after(*old(one_shot), *final(one_shot), env@, v, won)
            }),
{
    let now_ms = params.now_ms;
    let ghost s0 = AuthorityView {
        nonces: nonces@,
        ledger: ledger@,
        outbox: outbox.requests(),
    };
    let ghost av = action_outcome(action);
    let ghost tracker = *one_shot;
    let ghost won = authorized(
        env@,
        av,
        *leases,
        revocations@,
        sessions@,
        *issuers,
        tracker,
        true,
        reservation_id@,
        request_id@,
        *params,
        s0,
    );
    let ghost lost = authorized(
        env@,
        av,
        *leases,
        revocations@,
        sessions@,
        *issuers,
        tracker,
        false,
        reservation_id@,
        request_id@,
        *params,
        s0,
    );
    let action = match action {
        Ok(a) => a,
        Err(e) => {
            return PolicyDecision::deny(
                DenyReason::invalid_envelope(concat("envelope rejected: ", e.message().as_str())),
            );
        },
    };
    if now_ms >= env.expires_at_ms {
        return PolicyDecision::deny(
            DenyReason::expired_action("action past its hard deadline".to_owned()),
        );
    }
    if env.lease_chain.len() == 0 {
        return no_covering_lease(&action, env, outbox, params, request_id);
    }
    let key = surround(uuid_to_text(env.action_id).as_str(), ":", env.nonce.as_str());
    let left = saturating_sub(env.expires_at_ms, now_ms);
    let ttl: i64 = if left < 1 {
        1
    } else {
        left
    };
    if let Err(e) = nonces.check_and_insert(key.as_str(), now_ms, ttl) {
        return PolicyDecision::deny(
            DenyReason::replay_detected(concat("replay rejected: ", e.message().as_str())),
        );
    }
    let ids = chain_texts(&env.lease_chain);
    let chain = match validate_chain(
        leases,
        &ids,
        revocations,
        sessions,
        issuers,
        &*one_shot,
        now_ms,
    ) {
        Ok(c) => c,
        Err(e) => {
            return PolicyDecision::deny(deny_reason_for_chain_error(&e));
        },
    };
    let ghost links = lease_views(chain.chain@);
    let leaf = chain.leaf;
    if let Err(d) = check_leaf(&leaf, &action, env) {
        return PolicyDecision::deny(d);
    }
    let need = one_execution_budget();
    let reservation = match ledger.reserve_execution_as(
        reservation_id,
        leaf.lease_id.as_str(),
        uuid_to_text(env.action_id).as_str(),
        &need,
        key.as_str(),
        now_ms,
    ) {
        Ok(r) => r,
        Err(e) => {
            return PolicyDecision::deny(
                DenyReason::scope_exceeded(
                    concat("lease budget exhausted: ", e.message().as_str()),
                ),
            );
        },
    };
    let first = if leaf.limits.single_use {
        consume_single_use(&leaf, one_shot, now_ms).is_ok()
    } else {
        true
    };
    proof {
        assert(chain_ids(links)[0] == leaf@.lease_id);
    }
    conclude(&leaf, &reservation, first, ledger, now_ms)
}

/// Concludes an authorization, given the execution that is held for it and, for
/// a single-use leaf, whether this was its first use.
pub fn conclude(
    leaf: &LeaseDocument,
    reservation: &ExecutionReservation,
    won: bool,
    ledger: &mut BudgetLedger,
    now_ms: i64,
) -> (r: PolicyDecision)
    requires
        old(ledger).wf(),
    ensures
        final(ledger).wf(),
        forall|s: AuthorityView|
            s.ledger == old(ledger)@ ==> {
                let v = #[trigger] concluded(leaf@, reservation@, won, now_ms, s);
                r@ == v.decision && final(ledger)@ == v.state.ledger
            },
{
    if leaf.limits.single_use && !won {
        let _ = ledger.release_execution(reservation.id.as_str(), now_ms);
        return PolicyDecision::deny(
            DenyReason::replay_detected(
                surround("one-shot lease ", leaf.lease_id.as_str(), " already consumed"),
            ),
        );
    }
    let mut obligations: Vec<Obligation> = Vec::new();
    obligations.push(execution_settlement_obligation(reservation, leaf.lease_id.as_str()));
    proof {
        assert(obligation_views(obligations@) =~= Seq::<ObligationView>::empty().push(
            settlement(reservation@, leaf@.lease_id),
        ));
    }
    PolicyDecision::allow(obligations)
}

fn no_covering_lease<O: ApprovalOutbox>(
    action: &CanonicalAction,
    env: &ActionEnvelope,
    outbox: &mut O,
    params: &AuthorizeParams,
    request_id: String,
) -> (r: PolicyDecision)
    ensures
        forall|s: AuthorityView|
            s.outbox == old(outbox).requests() ==> {
                let v = #[trigger] without_lease(action@, env@, *params, request_id@, s);
                &&& r@ == v.decision
                &&& final(outbox).requests() == v.state.outbox
                &&& v.state.nonces == s.nonces
                &&& v.state.ledger == s.ledger
                &&& !v.consumed
            },
{
    if !params.allow_approval_fallback {
        return PolicyDecision::deny(DenyReason::no_lease("no covering lease".to_owned()));
    }
    outbox.post(
        VhlRequest {
            request_id: request_id.clone(),
            action_digest: action.digest.clone(),
            session_subject: env.session_id.clone(),
            nonce: env.nonce.clone(),
            expires_at_ms: saturating_add(params.now_ms, params.approval_ttl_ms),
        },
    );
    PolicyDecision::pending_approval(
        request_id,
        "no covering lease; human approval requested".to_owned(),
    )
}

/// Authorizes one action: canonicalizes it through `resolver`, and decides.
pub fn authorize_envelope<
    R: PathResolver,
    L: LeaseResolver,
    K: IssuerKeyResolver,
    T: OneShotTracker,
    O: ApprovalOutbox,
>(
    env: &ActionEnvelope,
    resolver: &R,
    leases: &L,
    revocations: &RevocationIndex,
    sessions: &SessionRegistry,
    issuers: &K,
    one_shot: &mut T,
    nonces: &mut NonceStore,
    ledger: &mut BudgetLedger,
    outbox: &mut O,
    params: &AuthorizeParams,
) -> (r: PolicyDecision)
    requires
        sessions.wf(),
        old(ledger).wf(),
    ensures
        final(ledger).wf(),
        exists|resolved: Seq<Result<String, String>>, won: bool, e: u128, q: u128|
            resolved_by(resolver, env@, resolved, params.case_insensitive_fs) && ({
                let v = #[trigger] authorized(
                    env@,
                    action_of(env@, resolution_views(resolved), params.case_insensitive_fs),
                    *leases,
                    revocations@,
                    sessions@,
                    *issuers,
                    *old(one_shot),
                    won,
                    "exec_"@ + uuid_text(e),
                    "vhl_"@ + uuid_text(q),
                    *params,
                    AuthorityView {
                        nonces: old(nonces)@,
                        ledger: old(ledger)@,
                        outbox: old(outbox).requests(),
                    },
                );
                &&& r@ == v.decision
                &&& final(nonces)@ == v.state.nonces
                &&& final(ledger)@ == v.state.ledger
                &&& final(outbox).requests() == v.state.outbox
                &&& tracker_after(*old(one_shot), *final(one_shot), env@, v, won)
            }),
{
    let action = CanonicalAction::from_envelope(env, resolver, params.case_insensitive_fs);
    let e: u128 = random_uuid();
    let q: u128 = random_uuid();
    authorize_action(
        env,
        action,
        leases,
        revocations,
        sessions,
        issuers,
        one_shot,
        nonces,
        ledger,
        outbox,
        params,
        prefixed_id("exec_", e),
        prefixed_id("vhl_", q),
    )
}

/// Where an action is allowed, its envelope is well formed and not expired, its
/// chain validates, the leaf lease is its session's and covers its exact
/// scope, and a single-use leaf was approved for exactly this action and not
/// used before.
pub proof fn allowed_actions_are_covered<L: LeaseResolver, K: IssuerKeyResolver, T: OneShotTracker>(
    env: EnvelopeView,
    action: Result<ActionView, LeaseErrorView>,
    leases: L,
    revocations: RevocationView,
    sessions: RegistryView,
    issuers: K,
    one_shot: T,
    won: bool,
    reservation_id: Seq<char>,
    request_id: Seq<char>,
    params: AuthorizeParams,
    s: AuthorityView,
)
    requires
        authorized(
            env,
            action,
            leases,
            revocations,
            sessions,
            issuers,
            one_shot,
            won,
            reservation_id,
            request_id,
            params,
            s,
        ).decision.outcome is Allow,
    ensures
        action is Ok,
        params.now_ms < env.expires_at_ms,
        ({
            let chain = validated(
                leases,
                id_texts(env.lease_chain),
                revocations,
                sessions,
                issuers,
                one_shot,
                params.now_ms,
            );
            &&& chain is Ok
            &&& chain->Ok_0[0].subject == env.session_id
            &&& action->Ok_0.exact_scope().subset(chain->Ok_0[0].scope) is Ok
            &&& chain->Ok_0[0].limits.single_use ==> won
                && chain->Ok_0[0].approved_action_digest == Some(
                env.with_chain(Seq::empty()).digest()->Ok_0,
            )
        }),
{
}

/// A denied authorization does not use up a single-use lease: either the lease
/// was not touched, or its use was lost to another.
pub proof fn denials_spare_single_use_leases<
    L: LeaseResolver,
    K: IssuerKeyResolver,
    T: OneShotTracker,
>(
    env: EnvelopeView,
    action: Result<ActionView, LeaseErrorView>,
    leases: L,
    revocations: RevocationView,
    sessions: RegistryView,
    issuers: K,
    one_shot: T,
    won: bool,
    reservation_id: Seq<char>,
    request_id: Seq<char>,
    params: AuthorizeParams,
    s: AuthorityView,
)
    ensures
        ({
            let v = authorized(
                env,
                action,
                leases,
                revocations,
                sessions,
                issuers,
                one_shot,
                won,
                reservation_id,
                request_id,
                params,
                s,
            );
            &&& !(v.decision.outcome is Allow) && v.consumed ==> !won
            &&& !(v.decision.outcome is Allow) && !v.consumed ==> v.state.ledger == s.ledger
            &&& v.decision.outcome is Pending ==> v.state.nonces == s.nonces
        }),
{
}

/// A single-use lease that was not used, with a tracker that nobody else writes
/// to, is granted where nothing else denies the action: only another writer
/// can take its use away.
pub proof fn unused_leases_are_granted<L: LeaseResolver, K: IssuerKeyResolver, T: OneShotTracker>(
    env: EnvelopeView,
    action: Result<ActionView, LeaseErrorView>,
    leases: L,
    revocations: RevocationView,
    sessions: RegistryView,
    issuers: K,
    before: T,
    after: T,
    won: bool,
    reservation_id: Seq<char>,
    request_id: Seq<char>,
    params: AuthorizeParams,
    s: AuthorityView,
)
    requires
        before.exclusive(),
        ({
            let v = authorized(
                env,
                action,
                leases,
                revocations,
                sessions,
                issuers,
                before,
                won,
                reservation_id,
                request_id,
                params,
                s,
            );
            v.consumed && tracker_after(before, after, env, v, won)
        }),
    ensures
        authorized(
            env,
            action,
            leases,
            revocations,
            sessions,
            issuers,
            before,
            won,
            reservation_id,
            request_id,
            params,
            s,
        ).decision.outcome is Allow,
{
    let chain = validated(
        leases,
        id_texts(env.lease_chain),
        revocations,
        sessions,
        issuers,
        before,
        params.now_ms,
    );
    assert(chain_ids(chain->Ok_0)[0] == chain->Ok_0[0].lease_id);
}

/// A single-use lease allows one action: after an action was allowed under it,
/// no other is, whatever it is and however often it is tried.
pub proof fn single_use_leases_allow_once<
    L: LeaseResolver,
    K: IssuerKeyResolver,
    T: OneShotTracker,
    L2: LeaseResolver,
    K2: IssuerKeyResolver,
>(
    env: EnvelopeView,
    action: Result<ActionView, LeaseErrorView>,
    leases: L,
    revocations: RevocationView,
    sessions: RegistryView,
    issuers: K,
    before: T,
    won: bool,
    reservation_id: Seq<char>,
    request_id: Seq<char>,
    params: AuthorizeParams,
    s: AuthorityView,
    after: T,
    later: T,
    env2: EnvelopeView,
    action2: Result<ActionView, LeaseErrorView>,
    leases2: L2,
    revocations2: RevocationView,
    sessions2: RegistryView,
    issuers2: K2,
    won2: bool,
    reservation_id2: Seq<char>,
    request_id2: Seq<char>,
    params2: AuthorizeParams,
    s2: AuthorityView,
)
    requires
        ({
            let v = authorized(
                env,
                action,
                leases,
                revocations,
                sessions,
                issuers,
                before,
                won,
                reservation_id,
                request_id,
                params,
                s,
            );
            v.decision.outcome is Allow && v.consumed && tracker_after(before, after, env, v, won)
        }),
        forall|id: Seq<char>| #[trigger] after.used(id) ==> later.used(id),
        env2.lease_chain.len() > 0,
        env2.lease_chain[0] == env.lease_chain[0],
        leases2.found(id_texts(env.lease_chain)[0]) matches Some(d) ==> d.limits.single_use
            && d.lease_id == id_texts(env.lease_chain)[0],
    ensures
        !(authorized(
            env2,
            action2,
            leases2,
            revocations2,
            sessions2,
            issuers2,
            later,
            won2,
            reservation_id2,
            request_id2,
            params2,
            s2,
        ).decision.outcome is Allow),
{
    let id = id_texts(env.lease_chain)[0];
    assert(after.used(id));
    let ids = id_texts(env2.lease_chain);
    assert(env.lease_chain.len() > 0);
    assert(ids[0] == id);
    let chain = validated(
        leases2,
        ids,
        revocations2,
        sessions2,
        issuers2,
        later,
        params2.now_ms,
    );
    if chain is Ok {
        walk_starts_with(leases2, id, Seq::empty(), 128);
        assert(chain->Ok_0[0] == leases2.found(id)->Some_0);
        assert(document_check(
            chain->Ok_0,
            0,
            revocations2,
            sessions2,
            issuers2,
            later,
            params2.now_ms,
        ) is Err);
    }
}

proof fn walk_starts_with<L: LeaseResolver>(
    leases: L,
    id: Seq<char>,
    before: Seq<LeaseView>,
    hops: nat,
)
    requires
        hops > 0,
        walk(leases, id, before, hops) is Ok,
    ensures
        ({
            let chain = walk(leases, id, before, hops)->Ok_0;
            &&& chain.len() > before.len()
            &&& leases.found(id) == Some(chain[before.len() as int])
            &&& before.is_prefix_of(chain)
        }),
    decreases hops,
{
    let doc = leases.found(id)->Some_0;
    let next = before.push(doc);
    assert(next.subrange(0, before.len() as int) =~= before);
    if let Some(p) = doc.parent_id {
        if hops > 1 {
            walk_starts_with(leases, p, next, (hops - 1) as nat);
            let chain = walk(leases, id, before, hops)->Ok_0;
            assert(chain.subrange(0, next.len() as int)[before.len() as int] == chain[before.len() as int]);
            assert(chain.subrange(0, before.len() as int) =~= before) by {
                assert forall|i: int| 0 <= i < before.len() implies chain[i] == before[i] by {
                    assert(chain.subrange(0, next.len() as int)[i] == chain[i]);
                    assert(next[i] == before[i]);
                }
            }
        } else {
            assert(walk(leases, p, next, 0) == Ok::<Seq<LeaseView>, LeaseErrorView>(next));
        }
    }
}

/// An action is allowed exactly if its envelope is in order and not past its
/// deadline, it presents a chain of leases that validates, its key was not
/// honoured before, the leaf is its session's own lease and grants all that the
/// envelope declares, one execution can be held under the leaf, and a
/// single-use leaf was approved for this very action and is used for the first
/// time. So no host, path, secret, effect or tool is reached that the leaf does
/// not grant.
pub proof fn actions_are_allowed_within_their_lease<
    L: LeaseResolver,
    K: IssuerKeyResolver,
    T: OneShotTracker,
>(
    env: EnvelopeView,
    resolved: Resolutions,
    fold: bool,
    leases: L,
    revocations: RevocationView,
    sessions: RegistryView,
    issuers: K,
    one_shot: T,
    won: bool,
    reservation_id: Seq<char>,
    request_id: Seq<char>,
    params: AuthorizeParams,
    s: AuthorityView,
)
    ensures
        ({
            let v = authorized(
                env,
                action_of(env, resolved, fold),
                leases,
                revocations,
                sessions,
                issuers,
                one_shot,
                won,
                reservation_id,
                request_id,
                params,
                s,
            );
            let chain = validated(
                leases,
                id_texts(env.lease_chain),
                revocations,
                sessions,
                issuers,
                one_shot,
                params.now_ms,
            );
            let leaf = leases.found(env.lease_chain[0].text())->0;
            let key = uuid_text(env.action_id) + ":"@ + env.nonce;
            v.decision.outcome is Allow <==> {
                &&& action_of(env, resolved, fold) is Ok
                &&& params.now_ms < env.expires_at_ms
                &&& env.lease_chain.len() > 0
                &&& presented(
                    s.nonces,
                    key,
                    params.now_ms,
                    nonce_ttl(env, params.now_ms),
                ).1 is Ok
                &&& chain is Ok
                &&& leases.found(env.lease_chain[0].text()) is Some
                &&& leaf.subject == env.session_id
                &&& grants_what_is_declared(leaf.scope, env, resolved, fold)
                &&& leaf.limits.single_use ==> {
                    let unleased = env.with_chain(Seq::empty()).digest();
                    &&& unleased is Ok
                    &&& leaf.approved_action_digest == Some(unleased->Ok_0)
                    &&& won
                }
                &&& s.ledger.reserve_execution(
                    reservation_id,
                    leaf.lease_id,
                    uuid_text(env.action_id),
                    one_execution(),
                    key,
                    params.now_ms,
                ).1 is Ok
            }
        }),
{
    let ids = id_texts(env.lease_chain);
    let chain = validated(
        leases,
        ids,
        revocations,
        sessions,
        issuers,
        one_shot,
        params.now_ms,
    );
    if chain is Ok {
        walk_starts_with(leases, ids[0], Seq::empty(), 128);
        assert(ids[0] == env.lease_chain[0].text());
        let leaf = leases.found(env.lease_chain[0].text())->0;
        assert(chain->Ok_0[0] == leaf);
        if action_of(env, resolved, fold) is Ok {
            exact_scopes_hold_what_is_declared(env, resolved, fold, leaf.scope);
        }
    }
}

/// What an allowed action leaves behind: its key is on record, so that the same
/// envelope is not honoured again, the ledger is the one after one execution
/// was held under the leaf, and the action is told to settle exactly that hold.
/// No request for an approval is made. A denied action without a lost use
/// changes at most the record of keys.
pub proof fn allowed_actions_leave_one_hold<
    L: LeaseResolver,
    K: IssuerKeyResolver,
    T: OneShotTracker,
>(
    env: EnvelopeView,
    action: Result<ActionView, LeaseErrorView>,
    leases: L,
    revocations: RevocationView,
    sessions: RegistryView,
    issuers: K,
    one_shot: T,
    won: bool,
    reservation_id: Seq<char>,
    request_id: Seq<char>,
    params: AuthorizeParams,
    s: AuthorityView,
)
    ensures
        ({
            let v = authorized(
                env,
                action,
                leases,
                revocations,
                sessions,
                issuers,
                one_shot,
                won,
                reservation_id,
                request_id,
                params,
                s,
            );
            let leaf = leases.found(env.lease_chain[0].text())->0;
            let key = uuid_text(env.action_id) + ":"@ + env.nonce;
            let hold = s.ledger.reserve_execution(
                reservation_id,
                leaf.lease_id,
                uuid_text(env.action_id),
                one_execution(),
                key,
                params.now_ms,
            );
            &&& v.decision.outcome is Allow ==> {
                &&& v.state.nonces == presented(
                    s.nonces,
                    key,
                    params.now_ms,
                    nonce_ttl(env, params.now_ms),
                ).0
                &&& v.state.ledger == hold.0
                &&& v.state.outbox == s.outbox
                &&& v.decision.outcome->Allow_0.len() == 1
                &&& v.decision.outcome->Allow_0[0] == settlement(hold.1->Ok_0, leaf.lease_id)
                &&& v.consumed == leaf.limits.single_use
            }
            &&& v.decision.outcome is Deny ==> v.state.outbox == s.outbox
        }),
{
    let ids = id_texts(env.lease_chain);
    let chain = validated(
        leases,
        ids,
        revocations,
        sessions,
        issuers,
        one_shot,
        params.now_ms,
    );
    if chain is Ok {
        walk_starts_with(leases, ids[0], Seq::empty(), 128);
        assert(ids[0] == env.lease_chain[0].text());
    }
}

/// An action without a lease is never allowed. Where a human may be asked, it is
/// pending on exactly one new request, which names the action by its digest, its
/// session and its nonce, and is open for the given time; otherwise it is
/// denied. Nothing else changes either way.
pub proof fn actions_without_a_lease_wait_for_a_human<
    L: LeaseResolver,
    K: IssuerKeyResolver,
    T: OneShotTracker,
>(
    env: EnvelopeView,
    action: ActionView,
    leases: L,
    revocations: RevocationView,
    sessions: RegistryView,
    issuers: K,
    one_shot: T,
    won: bool,
    reservation_id: Seq<char>,
    request_id: Seq<char>,
    params: AuthorizeParams,
    s: AuthorityView,
)
    requires
        env.lease_chain.len() == 0,
        params.now_ms < env.expires_at_ms,
        0 <= params.now_ms + params.approval_ttl_ms <= i64::MAX,
    ensures
        ({
            let v = authorized(
                env,
                Ok(action),
                leases,
                revocations,
                sessions,
                issuers,
                one_shot,
                won,
                reservation_id,
                request_id,
                params,
                s,
            );
            &&& !(v.decision.outcome is Allow)
            &&& v.decision.outcome is Pending <==> params.allow_approval_fallback
            &&& v.state.nonces == s.nonces && v.state.ledger == s.ledger && !v.consumed
            &&& !params.allow_approval_fallback ==> v.state.outbox == s.outbox
            &&& params.allow_approval_fallback ==> {
                let asked = v.state.outbox.last();
                &&& v.state.outbox.len() == s.outbox.len() + 1
                &&& v.state.outbox.drop_last() == s.outbox
                &&& asked.request_id == request_id && asked.action_digest == action.digest
                &&& asked.session_subject == env.session_id && asked.nonce == env.nonce
                &&& asked.expires_at_ms == params.now_ms + params.approval_ttl_ms
                &&& v.decision.outcome matches OutcomeView::Pending { approval_id, .. }
                    && approval_id == request_id
            }
        }),
{
    assert(s.outbox.push(
        without_lease(action, env, params, request_id, s).state.outbox.last(),
    ).drop_last() =~= s.outbox);
}

/// A lease may be used up exactly if it is for a single use and live: one for
/// more uses is refused whether it is live or not.
pub proof fn only_live_single_use_leases_are_used_up(doc: LeaseView, now_ms: i64)
    ensures
        single_use_check(doc, now_ms) is Ok <==> doc.limits.single_use && doc.live_at(now_ms),
        !doc.limits.single_use ==> single_use_check(doc, now_ms) == Err::<(), LeaseErrorView>(
            LeaseErrorView::NotSingleUse(doc.lease_id),
        ),
{
}

/// The reservation to settle is named by the first obligation to settle one, and
/// there is none exactly if there is no such obligation.
pub proof fn the_first_settlement_names_the_reservation(o: Seq<ObligationView>)
    ensures
        match first_reservation(o, 0) {
            Some(id) => exists|k: int|
                0 <= k < o.len() && (#[trigger] o[k] matches ObligationView::SettleBudget {
                    reservation_id,
                    ..
                } && reservation_id == id) && forall|j: int|
                    0 <= j < k ==> !(#[trigger] o[j] is SettleBudget),
            None => forall|k: int| 0 <= k < o.len() ==> !(#[trigger] o[k] is SettleBudget),
        },
{
    let k = first_settlement(o, 0);
    if first_reservation(o, 0) is Some {
        assert(o[k] is SettleBudget);
    }
}

proof fn first_settlement(o: Seq<ObligationView>, i: int) -> (k: int)
    requires
        0 <= i,
    ensures
        match first_reservation(o, i) {
            Some(id) => i <= k < o.len() && o[k] is SettleBudget
                && o[k]->SettleBudget_reservation_id == id && forall|j: int|
                i <= j < k ==> !(#[trigger] o[j] is SettleBudget),
            None => forall|j: int| i <= j < o.len() ==> !(#[trigger] o[j] is SettleBudget),
        },
    decreases o.len() - i,
{
    if i < o.len() && !(o[i] is SettleBudget) {
        first_settlement(o, i + 1)
    } else {
        i
    }
}

} // verus!
