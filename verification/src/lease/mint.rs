//! Minting: root leases signed by the issuer, and children that narrow their
//! parent.

use super::session::{
    KernelKeys, RegistryView, RevocationIndex, RevocationView, SessionRegistry,
};
use super::{
    lease_result, lease_unit, signing_is_not_covered, LeaseDocument, LeaseError, LeaseErrorView, LeaseLimits, LeaseView,
    LEASE_PROTOCOL_VERSION, MAX_ROOT_LEASE_LIFETIME_MS,
};
use crate::budget::{
    budget_extensional, budget_of_at, BudgetDimension, BudgetErrorView, BudgetLedger, LeaseAccount,
    LedgerView, ReservationState,
};
use crate::budget_laws::reserving_lowers_the_balance;
use crate::canonical::scope::{ResourceScope, ScopeView};
use crate::ids::{prefixed_id, random_uuid, uuid_text};
use crate::keys::{hex_signature, SigningKey};
use crate::nonce::{presented, saturating_sub, saturating_sum, NonceStore, NoncesView};
use vstd::prelude::*;
use vstd::utf8::encode_utf8;

verus! {

/// What a root lease is asked for with.
pub struct RootLeaseParams {
    pub lease_id: String,
    pub subject: String,
    pub scope: ResourceScope,
    pub limits: LeaseLimits,
    pub depth_limit: u32,
    pub lease_nonce: String,
    pub issued_at_ms: i64,
}

/// What a child lease is asked for with.
pub struct ChildLeaseParams {
    pub lease_id: String,
    pub subject: String,
    pub scope: ResourceScope,
    pub limits: LeaseLimits,
    pub depth_limit: u32,
    pub lease_nonce: String,
    pub issued_at_ms: i64,
}

/// The model of what a lease is asked for with.
pub struct ParamsView {
    pub lease_id: Seq<char>,
    pub subject: Seq<char>,
    pub scope: ScopeView,
    pub limits: LeaseLimits,
    pub depth_limit: u32,
    pub lease_nonce: Seq<char>,
    pub issued_at_ms: i64,
}

impl View for RootLeaseParams {
    type V = ParamsView;

    open spec fn view(&self) -> ParamsView {
        ParamsView {
            lease_id: self.lease_id@,
            subject: self.subject@,
            scope: self.scope@,
            limits: self.limits,
            depth_limit: self.depth_limit,
            lease_nonce: self.lease_nonce@,
            issued_at_ms: self.issued_at_ms,
        }
    }
}

impl View for ChildLeaseParams {
    type V = ParamsView;

    open spec fn view(&self) -> ParamsView {
        ParamsView {
            lease_id: self.lease_id@,
            subject: self.subject@,
            scope: self.scope@,
            limits: self.limits,
            depth_limit: self.depth_limit,
            lease_nonce: self.lease_nonce@,
            issued_at_ms: self.issued_at_ms,
        }
    }
}

/// The limits describe a time that is not empty and not over.
pub open spec fn time_bounds(l: LeaseLimits, now_ms: i64) -> Result<(), LeaseErrorView> {
    if l.not_before_ms >= l.expires_at_ms {
        Err(LeaseErrorView::InvalidTimeBounds(l.not_before_ms, l.expires_at_ms))
    } else if l.expires_at_ms <= now_ms {
        Err(LeaseErrorView::AlreadyExpired)
    } else {
        Ok(())
    }
}

/// The time from `now_ms` until the limits expire.
pub open spec fn remaining_time(l: LeaseLimits, now_ms: i64) -> i64 {
    saturating_sum(l.expires_at_ms as int, -(now_ms as int)) as i64
}

/// What the request for a root lease is refused for. The lifetime is measured
/// from the authority's clock, never from the caller's time of issue.
pub open spec fn root_check(p: ParamsView, sessions: RegistryView, now_ms: i64) -> Result<
    (),
    LeaseErrorView,
> {
    match time_bounds(p.limits, now_ms) {
        Err(e) => Err(e),
        Ok(_) => if remaining_time(p.limits, now_ms) > MAX_ROOT_LEASE_LIFETIME_MS {
            Err(
                LeaseErrorView::ExceedsMaxLifetime(
                    remaining_time(p.limits, now_ms),
                    MAX_ROOT_LEASE_LIFETIME_MS,
                ),
            )
        } else if p.issued_at_ms > now_ms {
            Err(LeaseErrorView::IssuedInFuture(p.issued_at_ms, now_ms))
        } else if !sessions.subject_live(p.subject, now_ms) {
            Err(LeaseErrorView::SubjectInactive(p.subject))
        } else if p.depth_limit == 0 {
            Err(LeaseErrorView::DepthViolation(0, 0))
        } else {
            Ok(())
        },
    }
}

/// A root lease before it is signed.
pub open spec fn root_document(p: ParamsView, issuer_key_id: Seq<char>) -> LeaseView {
    LeaseView {
        protocol_version: LEASE_PROTOCOL_VERSION,
        lease_id: p.lease_id,
        parent_id: None,
        subject: p.subject,
        issuer_key_id,
        issued_at_ms: p.issued_at_ms,
        scope: p.scope,
        limits: p.limits,
        depth: 0,
        depth_limit: p.depth_limit,
        lease_nonce: p.lease_nonce,
        approved_action_digest: None,
        signature: ""@,
    }
}

/// The nonces and the ledger after a root lease was asked for, and the answer.
pub open spec fn root_minted(
    p: ParamsView,
    issuer_key_id: Seq<char>,
    issuer: Seq<u8>,
    sessions: RegistryView,
    nonces: NoncesView,
    ledger: LedgerView,
    now_ms: i64,
) -> (NoncesView, LedgerView, Result<LeaseView, LeaseErrorView>) {
    match root_check(p, sessions, now_ms) {
        Err(e) => (nonces, ledger, Err(e)),
        Ok(_) => {
            let n = presented(nonces, p.lease_nonce, now_ms, remaining_time(p.limits, now_ms));
            match n.1 {
                Err(e) => (n.0, ledger, Err(LeaseErrorView::Nonce(e))),
                Ok(_) => {
                    let l = ledger.register(p.lease_id, p.limits.budget);
                    match l.1 {
                        Err(e) => (n.0, l.0, Err(LeaseErrorView::Budget(e))),
                        Ok(_) => (n.0, l.0, Ok(root_document(p, issuer_key_id).signed(issuer))),
                    }
                },
            }
        },
    }
}

/// What the request for a child lease is refused for: the parent cannot
/// delegate, the subject is no descendant, or the child is not narrower.
pub open spec fn child_check(
    parent: LeaseView,
    p: ParamsView,
    sessions: RegistryView,
    revocations: RevocationView,
    now_ms: i64,
) -> Result<(), LeaseErrorView> {
    if parent.protocol_version != LEASE_PROTOCOL_VERSION {
        Err(LeaseErrorView::VersionMismatch(parent.protocol_version))
    } else if !parent.live_at(now_ms) {
        Err(LeaseErrorView::AlreadyExpired)
    } else if revocations.revoked.contains(parent.lease_id) {
        Err(LeaseErrorView::Revoked(parent.lease_id))
    } else if parent.limits.single_use {
        Err(LeaseErrorView::SingleUseDelegation)
    } else if !sessions.active_descendant(p.subject, parent.subject, now_ms) {
        Err(LeaseErrorView::SubjectNotDescendant(p.subject, parent.subject))
    } else {
        match p.scope.subset(parent.scope) {
            Err(e) => Err(LeaseErrorView::Subset(e)),
            Ok(_) => match time_bounds(p.limits, now_ms) {
                Err(e) => Err(e),
                Ok(_) => if p.limits.expires_at_ms > parent.limits.expires_at_ms {
                    Err(
                        LeaseErrorView::ExpiryTooWide(
                            p.limits.expires_at_ms,
                            parent.limits.expires_at_ms,
                        ),
                    )
                } else if p.limits.not_before_ms < parent.limits.not_before_ms {
                    Err(
                        LeaseErrorView::NotBeforeTooEarly(
                            p.limits.not_before_ms,
                            parent.limits.not_before_ms,
                        ),
                    )
                } else if next_depth(parent.depth) >= parent.depth_limit {
                    Err(
                        LeaseErrorView::DepthViolation(
                            next_depth(parent.depth),
                            parent.depth_limit,
                        ),
                    )
                } else if p.depth_limit > parent.depth_limit || p.depth_limit <= next_depth(
                    parent.depth,
                ) {
                    Err(LeaseErrorView::DepthLimitTooWide(p.depth_limit, parent.depth_limit))
                } else {
                    Ok(())
                },
            },
        }
    }
}

/// One level deeper.
pub open spec fn next_depth(depth: u32) -> u32 {
    if depth == u32::MAX {
        depth
    } else {
        (depth + 1) as u32
    }
}

/// A child lease before it is signed.
pub open spec fn child_document(parent: LeaseView, p: ParamsView) -> LeaseView {
    LeaseView {
        protocol_version: LEASE_PROTOCOL_VERSION,
        lease_id: p.lease_id,
        parent_id: Some(parent.lease_id),
        subject: p.subject,
        issuer_key_id: parent.subject,
        issued_at_ms: p.issued_at_ms,
        scope: p.scope,
        limits: p.limits,
        depth: next_depth(parent.depth),
        depth_limit: p.depth_limit,
        lease_nonce: p.lease_nonce,
        approved_action_digest: None,
        signature: ""@,
    }
}

/// The nonces and the ledger after a child lease was asked for, and the
/// answer. The child's maximum is held against the parent's balance under
/// `reservation_id`.
pub open spec fn child_minted(
    parent: LeaseView,
    p: ParamsView,
    parent_key: Seq<u8>,
    sessions: RegistryView,
    revocations: RevocationView,
    reservation_id: Seq<char>,
    nonces: NoncesView,
    ledger: LedgerView,
    now_ms: i64,
) -> (NoncesView, LedgerView, Result<LeaseView, LeaseErrorView>) {
    match child_check(parent, p, sessions, revocations, now_ms) {
        Err(e) => (nonces, ledger, Err(e)),
        Ok(_) => {
            let n = presented(nonces, p.lease_nonce, now_ms, remaining_time(p.limits, now_ms));
            match n.1 {
                Err(e) => (n.0, ledger, Err(LeaseErrorView::Nonce(e))),
                Ok(_) => {
                    let held = ledger.reserve(
                        reservation_id,
                        parent.lease_id,
                        p.lease_id,
                        p.limits.budget,
                        now_ms,
                    );
                    match held.1 {
                        Err(e) => (n.0, held.0, Err(LeaseErrorView::Budget(e))),
                        Ok(_) => {
                            let l = held.0.register(p.lease_id, p.limits.budget);
                            match l.1 {
                                Err(e) => (n.0, l.0, Err(LeaseErrorView::Budget(e))),
                                Ok(_) => (
                                    n.0,
                                    l.0,
                                    Ok(child_document(parent, p).signed(parent_key)),
                                ),
                            }
                        },
                    }
                },
            }
        },
    }
}

fn check_time_bounds(limits: &LeaseLimits, now_ms: i64) -> (r: Result<(), LeaseError>)
    ensures
        lease_unit(r) == time_bounds(*limits, now_ms),
{
    if limits.not_before_ms >= limits.expires_at_ms {
        return Err(LeaseError::InvalidTimeBounds(limits.not_before_ms, limits.expires_at_ms));
    }
    if limits.expires_at_ms <= now_ms {
        return Err(LeaseError::AlreadyExpired);
    }
    Ok(())
}

fn check_root(params: &RootLeaseParams, sessions: &SessionRegistry, now_ms: i64) -> (r: Result<
    (),
    LeaseError,
>)
    requires
        sessions.wf(),
    ensures
        lease_unit(r) == root_check(params@, sessions@, now_ms),
{
    if let Err(e) = check_time_bounds(&params.limits, now_ms) {
        return Err(e);
    }
    let lifetime = saturating_sub(params.limits.expires_at_ms, now_ms);
    if lifetime > MAX_ROOT_LEASE_LIFETIME_MS {
        return Err(LeaseError::ExceedsMaxLifetime(lifetime, MAX_ROOT_LEASE_LIFETIME_MS));
    }
    if params.issued_at_ms > now_ms {
        return Err(LeaseError::IssuedInFuture(params.issued_at_ms, now_ms));
    }
    if !sessions.is_subject_live(params.subject.as_str(), now_ms) {
        return Err(LeaseError::SubjectInactive(params.subject.clone()));
    }
    if params.depth_limit == 0 {
        return Err(LeaseError::DepthViolation(0, 0));
    }
    Ok(())
}

/// Mints a root lease: standing authority, signed by the kernel's issuer key.
pub fn mint_root_lease(
    params: RootLeaseParams,
    keys: &KernelKeys,
    sessions: &SessionRegistry,
    ledger: &mut BudgetLedger,
    nonces: &mut NonceStore,
    now_ms: i64,
) -> (r: Result<LeaseDocument, LeaseError>)
    requires
        params@.scope.wf(),
        sessions.wf(),
        old(ledger).wf(),
    ensures
        final(ledger).wf(),
        (final(nonces)@, final(ledger)@, lease_result(r)) == root_minted(
            params@,
            keys.issuer_id(),
            keys.issuer_seed(),
            sessions@,
            old(nonces)@,
            old(ledger)@,
            now_ms,
        ),
{
    if let Err(e) = check_root(&params, sessions, now_ms) {
        return Err(e);
    }
    if let Err(e) = nonces.check_and_insert(
        params.lease_nonce.as_str(),
        now_ms,
        saturating_sub(params.limits.expires_at_ms, now_ms),
    ) {
        return Err(LeaseError::Nonce(e));
    }
    if let Err(e) = ledger.register_lease(params.lease_id.as_str(), &params.limits.budget) {
        return Err(LeaseError::Budget(e));
    }
    let ghost unsigned = root_document(params@, keys.issuer_id());
    let mut doc = LeaseDocument {
        protocol_version: LEASE_PROTOCOL_VERSION,
        lease_id: params.lease_id,
        parent_id: None,
        subject: params.subject,
        issuer_key_id: keys.issuer_id_text().to_owned(),
        issued_at_ms: params.issued_at_ms,
        scope: params.scope,
        limits: params.limits,
        depth: 0,
        depth_limit: params.depth_limit,
        lease_nonce: params.lease_nonce,
        approved_action_digest: None,
        signature: "".to_owned(),
    };
    proof {
        assert(doc@ == unsigned);
    }
    doc.sign(keys.issuer_key());
    Ok(doc)
}

fn check_child(
    parent: &LeaseDocument,
    params: &ChildLeaseParams,
    sessions: &SessionRegistry,
    revocations: &RevocationIndex,
    now_ms: i64,
) -> (r: Result<u32, LeaseError>)
    requires
        sessions.wf(),
        parent@.scope.wf(),
        params@.scope.wf(),
    ensures
        match r {
            Ok(d) => child_check(parent@, params@, sessions@, revocations@, now_ms) is Ok && d
                == next_depth(parent.depth),
            Err(e) => child_check(parent@, params@, sessions@, revocations@, now_ms) == Err::<
                (),
                LeaseErrorView,
            >(e@),
        },
{
    if parent.protocol_version != LEASE_PROTOCOL_VERSION {
        return Err(LeaseError::VersionMismatch(parent.protocol_version));
    }
    if !parent.live_at(now_ms) {
        return Err(LeaseError::AlreadyExpired);
    }
    if revocations.is_revoked(parent.lease_id.as_str()) {
        return Err(LeaseError::Revoked(parent.lease_id.clone()));
    }
    if parent.limits.single_use {
        return Err(LeaseError::SingleUseDelegation);
    }
    if !sessions.is_active_descendant(params.subject.as_str(), parent.subject.as_str(), now_ms) {
        return Err(
            LeaseError::SubjectNotDescendant(params.subject.clone(), parent.subject.clone()),
        );
    }
    if let Err(e) = params.scope.is_subset_of(&parent.scope) {
        return Err(LeaseError::Subset(e));
    }
    if let Err(e) = check_time_bounds(&params.limits, now_ms) {
        return Err(e);
    }
    if params.limits.expires_at_ms > parent.limits.expires_at_ms {
        return Err(
            LeaseError::ExpiryTooWide(params.limits.expires_at_ms, parent.limits.expires_at_ms),
        );
    }
    if params.limits.not_before_ms < parent.limits.not_before_ms {
        return Err(
            LeaseError::NotBeforeTooEarly(
                params.limits.not_before_ms,
                parent.limits.not_before_ms,
            ),
        );
    }
    let depth: u32 = if parent.depth == u32::MAX {
        parent.depth
    } else {
        parent.depth + 1
    };
    if depth >= parent.depth_limit {
        return Err(LeaseError::DepthViolation(depth, parent.depth_limit));
    }
    if params.depth_limit > parent.depth_limit || params.depth_limit <= depth {
        return Err(LeaseError::DepthLimitTooWide(params.depth_limit, parent.depth_limit));
    }
    Ok(depth)
}

/// Mints a child lease, signed with the parent session's key. The parent has
/// to have been validated before.
pub fn mint_child_lease(
    parent: &LeaseDocument,
    params: ChildLeaseParams,
    parent_signing_key: &SigningKey,
    sessions: &SessionRegistry,
    revocations: &RevocationIndex,
    ledger: &mut BudgetLedger,
    nonces: &mut NonceStore,
    now_ms: i64,
) -> (r: Result<LeaseDocument, LeaseError>)
    requires
        params@.scope.wf(),
        parent@.scope.wf(),
        sessions.wf(),
        old(ledger).wf(),
    ensures
        final(ledger).wf(),
        exists|u: u128|
            (final(nonces)@, final(ledger)@, lease_result(r)) == #[trigger] child_minted(
                parent@,
                params@,
                parent_signing_key@,
                sessions@,
                revocations@,
                "res_"@ + uuid_text(u),
                old(nonces)@,
                old(ledger)@,
                now_ms,
            ),
{
    let u: u128 = random_uuid();
    mint_child_lease_as(
        parent,
        params,
        parent_signing_key,
        sessions,
        revocations,
        prefixed_id("res_", u),
        ledger,
        nonces,
        now_ms,
    )
}

/// Mints a child lease whose reservation has the given identity.
pub fn mint_child_lease_as(
    parent: &LeaseDocument,
    params: ChildLeaseParams,
    parent_signing_key: &SigningKey,
    sessions: &SessionRegistry,
    revocations: &RevocationIndex,
    reservation_id: String,
    ledger: &mut BudgetLedger,
    nonces: &mut NonceStore,
    now_ms: i64,
) -> (r: Result<LeaseDocument, LeaseError>)
    requires
        params@.scope.wf(),
        parent@.scope.wf(),
        sessions.wf(),
        old(ledger).wf(),
    ensures
        final(ledger).wf(),
        (final(nonces)@, final(ledger)@, lease_result(r)) == child_minted(
            parent@,
            params@,
            parent_signing_key@,
            sessions@,
            revocations@,
            reservation_id@,
            old(nonces)@,
            old(ledger)@,
            now_ms,
        ),
{
    let depth: u32 = match check_child(parent, &params, sessions, revocations, now_ms) {
        Ok(d) => d,
        Err(e) => {
            return Err(e);
        },
    };
    if let Err(e) = nonces.check_and_insert(
        params.lease_nonce.as_str(),
        now_ms,
        saturating_sub(params.limits.expires_at_ms, now_ms),
    ) {
        return Err(LeaseError::Nonce(e));
    }
    if let Err(e) = ledger.reserve_as(
        reservation_id,
        parent.lease_id.as_str(),
        params.lease_id.as_str(),
        &params.limits.budget,
        now_ms,
    ) {
        return Err(LeaseError::Budget(e));
    }
    if let Err(e) = ledger.register_lease(params.lease_id.as_str(), &params.limits.budget) {
        return Err(LeaseError::Budget(e));
    }
    let ghost unsigned = child_document(parent@, params@);
    let mut doc = LeaseDocument {
        protocol_version: LEASE_PROTOCOL_VERSION,
        lease_id: params.lease_id,
        parent_id: Some(parent.lease_id.clone()),
        subject: params.subject,
        issuer_key_id: parent.subject.clone(),
        issued_at_ms: params.issued_at_ms,
        scope: params.scope,
        limits: params.limits,
        depth,
        depth_limit: params.depth_limit,
        lease_nonce: params.lease_nonce,
        approved_action_digest: None,
        signature: "".to_owned(),
    };
    proof {
        assert(doc@ == unsigned);
    }
    doc.sign(parent_signing_key);
    Ok(doc)
}

/// A child lease that was minted is valid under its parent: the scope is
/// within the parent's, the time within the parent's time, the depth below the
/// parent's limit, and the subject a live descendant of the parent's.
pub proof fn children_narrow_their_parent(
    parent: LeaseView,
    p: ParamsView,
    parent_key: Seq<u8>,
    sessions: RegistryView,
    revocations: RevocationView,
    reservation_id: Seq<char>,
    nonces: NoncesView,
    ledger: LedgerView,
    now_ms: i64,
)
    requires
        child_minted(
            parent,
            p,
            parent_key,
            sessions,
            revocations,
            reservation_id,
            nonces,
            ledger,
            now_ms,
        ).2 is Ok,
    ensures
        ({
            let child = child_minted(
                parent,
                p,
                parent_key,
                sessions,
                revocations,
                reservation_id,
                nonces,
                ledger,
                now_ms,
            ).2->Ok_0;
            &&& child.scope.subset(parent.scope) is Ok
            &&& parent.limits.not_before_ms <= child.limits.not_before_ms
            &&& child.limits.not_before_ms < child.limits.expires_at_ms
            &&& child.limits.expires_at_ms <= parent.limits.expires_at_ms
            &&& child.depth == parent.depth + 1
            &&& child.depth < child.depth_limit
            &&& child.depth_limit <= parent.depth_limit
            &&& child.parent_id == Some(parent.lease_id)
            &&& child.issuer_key_id == parent.subject
            &&& sessions.active_descendant(child.subject, parent.subject, now_ms)
            &&& !revocations.revoked.contains(parent.lease_id)
            &&& !parent.limits.single_use
            &&& parent.live_at(now_ms)
        }),
{
}

/// A mint that fails leaves the ledger as it was: no hold is leaked.
pub proof fn failed_mints_leak_no_budget(
    parent: LeaseView,
    p: ParamsView,
    parent_key: Seq<u8>,
    sessions: RegistryView,
    revocations: RevocationView,
    reservation_id: Seq<char>,
    nonces: NoncesView,
    ledger: LedgerView,
    now_ms: i64,
)
    requires
        child_minted(
            parent,
            p,
            parent_key,
            sessions,
            revocations,
            reservation_id,
            nonces,
            ledger,
            now_ms,
        ).2 is Err,
    ensures
        child_minted(
            parent,
            p,
            parent_key,
            sessions,
            revocations,
            reservation_id,
            nonces,
            ledger,
            now_ms,
        ).1 == ledger,
{
    let held = ledger.reserve(
        reservation_id,
        parent.lease_id,
        p.lease_id,
        p.limits.budget,
        now_ms,
    );
    if held.1 is Ok {
        assert(!held.0.accounts.dom().contains(p.lease_id));
    }
}

/// A child that is minted takes its whole budget out of the parent's balance, in
/// every dimension, and has all of it to spend. No other account changes. The
/// hold is on record: it is active, and names both leases.
pub proof fn minting_holds_the_childs_budget(
    parent: LeaseView,
    p: ParamsView,
    parent_key: Seq<u8>,
    sessions: RegistryView,
    revocations: RevocationView,
    reservation_id: Seq<char>,
    nonces: NoncesView,
    ledger: LedgerView,
    now_ms: i64,
)
    requires
        child_minted(
            parent,
            p,
            parent_key,
            sessions,
            revocations,
            reservation_id,
            nonces,
            ledger,
            now_ms,
        ).2 is Ok,
    ensures
        ({
            let after = child_minted(
                parent,
                p,
                parent_key,
                sessions,
                revocations,
                reservation_id,
                nonces,
                ledger,
                now_ms,
            ).1;
            let asked = p.limits.budget;
            &&& ledger.accounts.dom().contains(parent.lease_id)
            &&& !ledger.accounts.dom().contains(p.lease_id)
            &&& after.accounts.dom().contains(parent.lease_id)
            &&& after.accounts.dom().contains(p.lease_id)
            &&& forall|d: BudgetDimension| #[trigger]
                after.accounts[parent.lease_id].balance().at(d)
                    == ledger.accounts[parent.lease_id].balance().at(d) - asked.at(d)
            &&& forall|d: BudgetDimension| #[trigger]
                after.accounts[p.lease_id].balance().at(d) == asked.at(d)
            &&& after.accounts[p.lease_id].caps == asked
            &&& after.accounts[parent.lease_id].caps == ledger.accounts[parent.lease_id].caps
            &&& forall|other: Seq<char>|
                other != parent.lease_id && other != p.lease_id ==> (
                #[trigger] after.accounts.dom().contains(other)
                    <==> ledger.accounts.dom().contains(other)) && after.accounts[other]
                    == ledger.accounts[other]
            &&& after.reservations.dom().contains(reservation_id)
            &&& after.reservations[reservation_id].held == asked
            &&& after.reservations[reservation_id].state == ReservationState::Active
            &&& after.reservations[reservation_id].parent_lease_id == parent.lease_id
            &&& after.reservations[reservation_id].child_lease_id == p.lease_id
        }),
{
    broadcast use budget_of_at;

    reserving_lowers_the_balance(
        ledger,
        reservation_id,
        parent.lease_id,
        p.lease_id,
        p.limits.budget,
        now_ms,
    );
    let held = ledger.reserve(
        reservation_id,
        parent.lease_id,
        p.lease_id,
        p.limits.budget,
        now_ms,
    );
    budget_extensional(
        held.0.accounts[parent.lease_id].caps,
        ledger.accounts[parent.lease_id].caps,
    );
    budget_extensional(held.1->Ok_0.held, p.limits.budget);
    let fresh = LeaseAccount::fresh(p.limits.budget);
    assert forall|d: BudgetDimension| #[trigger] fresh.balance().at(d) == p.limits.budget.at(d) by {
        assert(fresh.total().at(d) == 0);
    }
}

/// A child that asks for more than the parent's balance, in whatever dimension,
/// is never minted. If nothing else is wrong with it, it is told the dimension.
pub proof fn overdrawn_children_are_refused(
    parent: LeaseView,
    p: ParamsView,
    parent_key: Seq<u8>,
    sessions: RegistryView,
    revocations: RevocationView,
    reservation_id: Seq<char>,
    nonces: NoncesView,
    ledger: LedgerView,
    now_ms: i64,
    d: BudgetDimension,
)
    requires
        ledger.accounts.dom().contains(parent.lease_id),
        p.limits.budget.at(d) > ledger.accounts[parent.lease_id].balance().at(d),
    ensures
        ({
            let (_, after, r) = child_minted(
                parent,
                p,
                parent_key,
                sessions,
                revocations,
                reservation_id,
                nonces,
                ledger,
                now_ms,
            );
            let left = ledger.accounts[parent.lease_id].balance();
            &&& r is Err
            &&& after == ledger
            &&& child_check(parent, p, sessions, revocations, now_ms) is Ok && presented(
                nonces,
                p.lease_nonce,
                now_ms,
                remaining_time(p.limits, now_ms),
            ).1 is Ok && !ledger.accounts.dom().contains(p.lease_id)
                && ledger.accounts[parent.lease_id].total_fits() ==> exists|k: BudgetDimension|
                #![trigger p.limits.budget.at(k)]
                p.limits.budget.at(k) > left.at(k) && r == Err::<LeaseView, _>(
                    LeaseErrorView::Budget(
                        BudgetErrorView::Insufficient {
                            lease: parent.lease_id,
                            dimension: k.name(),
                            needed: p.limits.budget.at(k),
                            remaining: left.at(k),
                        },
                    ),
                )
        }),
{
    let held = ledger.reserve(
        reservation_id,
        parent.lease_id,
        p.lease_id,
        p.limits.budget,
        now_ms,
    );
    if !ledger.accounts.dom().contains(p.lease_id)
        && ledger.accounts[parent.lease_id].total_fits() {
        reserving_lowers_the_balance(
            ledger,
            reservation_id,
            parent.lease_id,
            p.lease_id,
            p.limits.budget,
            now_ms,
        );
        assert(held.1 is Err);
    }
}

/// Two children of one parent that are minted one after the other together
/// hold no more than the parent had left before the first.
pub proof fn siblings_share_the_parents_balance(
    parent: LeaseView,
    p: ParamsView,
    q: ParamsView,
    parent_key: Seq<u8>,
    sessions: RegistryView,
    revocations: RevocationView,
    first_id: Seq<char>,
    second_id: Seq<char>,
    nonces: NoncesView,
    ledger: LedgerView,
    now_ms: i64,
    later_ms: i64,
    d: BudgetDimension,
)
    requires
        ({
            let first = child_minted(
                parent,
                p,
                parent_key,
                sessions,
                revocations,
                first_id,
                nonces,
                ledger,
                now_ms,
            );
            first.2 is Ok && child_minted(
                parent,
                q,
                parent_key,
                sessions,
                revocations,
                second_id,
                first.0,
                first.1,
                later_ms,
            ).2 is Ok
        }),
    ensures
        p.lease_id != q.lease_id,
        p.limits.budget.at(d) + q.limits.budget.at(d)
            <= ledger.accounts[parent.lease_id].balance().at(d),
{
    let first = child_minted(
        parent,
        p,
        parent_key,
        sessions,
        revocations,
        first_id,
        nonces,
        ledger,
        now_ms,
    );
    minting_holds_the_childs_budget(
        parent,
        p,
        parent_key,
        sessions,
        revocations,
        first_id,
        nonces,
        ledger,
        now_ms,
    );
    minting_holds_the_childs_budget(
        parent,
        q,
        parent_key,
        sessions,
        revocations,
        second_id,
        first.0,
        first.1,
        later_ms,
    );
    let second = child_minted(
        parent,
        q,
        parent_key,
        sessions,
        revocations,
        second_id,
        first.0,
        first.1,
        later_ms,
    );
    assert(second.1.accounts[parent.lease_id].balance().at(d)
        == first.1.accounts[parent.lease_id].balance().at(d) - q.limits.budget.at(d));
    assert(first.1.accounts[parent.lease_id].balance().at(d)
        == ledger.accounts[parent.lease_id].balance().at(d) - p.limits.budget.at(d));
}

/// A lease says what it was asked for with: the identity, the subject, the
/// scope, the limits, the limit of depth, the nonce and the time of issue. It
/// is signed by whoever mints it: a root lease by the issuer, a child with the
/// key of its parent's subject. Neither is bound to one action.
pub proof fn minted_leases_say_what_was_asked(
    parent: LeaseView,
    p: ParamsView,
    issuer_key_id: Seq<char>,
    seed: Seq<u8>,
    sessions: RegistryView,
    revocations: RevocationView,
    reservation_id: Seq<char>,
    nonces: NoncesView,
    ledger: LedgerView,
    now_ms: i64,
)
    ensures
        root_minted(p, issuer_key_id, seed, sessions, nonces, ledger, now_ms).2 matches Ok(root)
            ==> {
            &&& root.lease_id == p.lease_id && root.subject == p.subject && root.scope == p.scope
            &&& root.limits == p.limits && root.depth_limit == p.depth_limit
            &&& root.lease_nonce == p.lease_nonce && root.issued_at_ms == p.issued_at_ms
            &&& root.protocol_version == 2 && root.depth == 0 && root.parent_id is None
            &&& root.issuer_key_id == issuer_key_id && root.approved_action_digest is None
            &&& root.signature == hex_signature(seed, encode_utf8(root.signing_text()))
        },
        child_minted(
            parent,
            p,
            seed,
            sessions,
            revocations,
            reservation_id,
            nonces,
            ledger,
            now_ms,
        ).2 matches Ok(child) ==> {
            &&& child.lease_id == p.lease_id && child.subject == p.subject && child.scope
                == p.scope
            &&& child.limits == p.limits && child.depth_limit == p.depth_limit
            &&& child.lease_nonce == p.lease_nonce && child.issued_at_ms == p.issued_at_ms
            &&& child.protocol_version == 2 && child.depth == parent.depth + 1
            &&& child.parent_id == Some(parent.lease_id) && child.issuer_key_id == parent.subject
            &&& child.approved_action_digest is None
            &&& child.signature == hex_signature(seed, encode_utf8(child.signing_text()))
        },
{
    signing_is_not_covered(
        root_document(p, issuer_key_id),
        hex_signature(seed, encode_utf8(root_document(p, issuer_key_id).signing_text())),
    );
    signing_is_not_covered(
        child_document(parent, p),
        hex_signature(seed, encode_utf8(child_document(parent, p).signing_text())),
    );
}

/// A root lease is minted exactly if its time is neither empty nor over and
/// ends within 30 days of the authority's clock, it was not issued in the
/// future, its subject is live, its depth is limited to at least one, its nonce
/// is fresh until it expires, and its identity has no account. Its account then
/// holds its budget, untouched, and no other account changes.
pub proof fn roots_are_minted_when_due(
    p: ParamsView,
    issuer_key_id: Seq<char>,
    issuer: Seq<u8>,
    sessions: RegistryView,
    nonces: NoncesView,
    ledger: LedgerView,
    now_ms: i64,
)
    requires
        now_ms >= 0,
    ensures
        ({
            let (_, after, r) = root_minted(
                p,
                issuer_key_id,
                issuer,
                sessions,
                nonces,
                ledger,
                now_ms,
            );
            let l = p.limits;
            &&& r is Ok <==> {
                &&& l.not_before_ms < l.expires_at_ms
                &&& now_ms < l.expires_at_ms
                &&& l.expires_at_ms - now_ms <= 30 * 24 * 60 * 60 * 1000
                &&& p.issued_at_ms <= now_ms
                &&& sessions.subject_live(p.subject, now_ms)
                &&& p.depth_limit >= 1
                &&& presented(
                    nonces,
                    p.lease_nonce,
                    now_ms,
                    (l.expires_at_ms - now_ms) as i64,
                ).1 is Ok
                &&& !ledger.accounts.dom().contains(p.lease_id)
            }
            &&& r is Err ==> after == ledger
            &&& r is Ok ==> {
                &&& after.accounts.dom().contains(p.lease_id)
                &&& after.accounts[p.lease_id].caps == l.budget
                &&& forall|d: BudgetDimension| #[trigger]
                    after.accounts[p.lease_id].balance().at(d) == l.budget.at(d)
                &&& forall|other: Seq<char>|
                    other != p.lease_id ==> (#[trigger] after.accounts.dom().contains(other)
                        <==> ledger.accounts.dom().contains(other)) && after.accounts[other]
                        == ledger.accounts[other]
                &&& after.reservations == ledger.reservations
            }
        }),
{
    broadcast use budget_of_at;

    let fresh = LeaseAccount::fresh(p.limits.budget);
    assert forall|d: BudgetDimension| #[trigger] fresh.balance().at(d) == p.limits.budget.at(d) by {
        assert(fresh.total().at(d) == 0);
    }
}

/// A child lease is minted exactly if the parent speaks this version, is in
/// force, is not revoked and may be used more than once, the child's subject is
/// a live descendant of the parent's, its scope, its time and its depth stay
/// within the parent's, its nonce is fresh, its identity has no account and the
/// parent's balance covers its budget.
pub proof fn children_are_minted_when_due(
    parent: LeaseView,
    p: ParamsView,
    parent_key: Seq<u8>,
    sessions: RegistryView,
    revocations: RevocationView,
    reservation_id: Seq<char>,
    nonces: NoncesView,
    ledger: LedgerView,
    now_ms: i64,
)
    requires
        now_ms >= 0,
    ensures
        child_minted(
            parent,
            p,
            parent_key,
            sessions,
            revocations,
            reservation_id,
            nonces,
            ledger,
            now_ms,
        ).2 is Ok <==> {
            &&& parent.protocol_version == 2
            &&& parent.limits.not_before_ms <= now_ms < parent.limits.expires_at_ms
            &&& !revocations.revoked.contains(parent.lease_id)
            &&& !parent.limits.single_use
            &&& sessions.active_descendant(p.subject, parent.subject, now_ms)
            &&& p.scope.subset(parent.scope) is Ok
            &&& now_ms < p.limits.expires_at_ms <= parent.limits.expires_at_ms
            &&& parent.limits.not_before_ms <= p.limits.not_before_ms < p.limits.expires_at_ms
            &&& parent.depth + 1 < p.depth_limit <= parent.depth_limit
            &&& presented(
                nonces,
                p.lease_nonce,
                now_ms,
                (p.limits.expires_at_ms - now_ms) as i64,
            ).1 is Ok
            &&& !ledger.accounts.dom().contains(p.lease_id)
            &&& ledger.accounts.dom().contains(parent.lease_id)
            &&& ledger.accounts[parent.lease_id].total_fits()
            &&& forall|d: BudgetDimension| #[trigger]
                p.limits.budget.at(d) <= ledger.accounts[parent.lease_id].balance().at(d)
        },
{
    let known = ledger.accounts.dom().contains(parent.lease_id)
        && ledger.accounts[parent.lease_id].total_fits() && !ledger.accounts.dom().contains(
        p.lease_id,
    );
    if known {
        reserving_lowers_the_balance(
            ledger,
            reservation_id,
            parent.lease_id,
            p.lease_id,
            p.limits.budget,
            now_ms,
        );
    }
}

/// A root lease that was minted lives no longer than 30 days from now, by the
/// authority's clock, whatever time of issue its caller gave.
pub proof fn root_lifetimes_are_bounded(
    p: ParamsView,
    issuer_key_id: Seq<char>,
    issuer: Seq<u8>,
    sessions: RegistryView,
    nonces: NoncesView,
    ledger: LedgerView,
    now_ms: i64,
)
    requires
        root_minted(p, issuer_key_id, issuer, sessions, nonces, ledger, now_ms).2 is Ok,
    ensures
        ({
            let lease = root_minted(p, issuer_key_id, issuer, sessions, nonces, ledger, now_ms).2->Ok_0;
            &&& lease.limits.expires_at_ms - now_ms <= MAX_ROOT_LEASE_LIFETIME_MS
            &&& lease.limits.expires_at_ms > now_ms
            &&& lease.issued_at_ms <= now_ms
            &&& lease.depth == 0
            &&& lease.depth < lease.depth_limit
            &&& lease.parent_id is None
        }),
{
}

} // verus!
