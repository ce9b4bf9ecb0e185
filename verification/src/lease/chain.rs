//! Validation of a lease chain from its leaf to its root.

use super::session::{
    IssuerKeyResolver, LeaseResolver, OneShotTracker, RegistryView, RevocationIndex,
    RevocationView, SessionRegistry,
};
use super::{
    lease_unit, LeaseDocument, LeaseError, LeaseErrorView, LeaseView, LEASE_PROTOCOL_VERSION,
};
use crate::keys::{signed_by, VerifyingKey};
use crate::text::{same_strings, str_eq, texts};
use vstd::prelude::*;
use vstd::utf8::encode_utf8;

verus! {

/// A validated chain, leaf first.
#[derive(Clone, Debug)]
pub struct ValidatedChain {
    pub leaf: LeaseDocument,
    pub chain: Vec<LeaseDocument>,
}

/// The models of a list of leases.
pub open spec fn lease_views(v: Seq<LeaseDocument>) -> Seq<LeaseView> {
    v.map_values(|d: LeaseDocument| d@)
}

/// Some lease of the list has the given identity.
pub open spec fn holds_lease(chain: Seq<LeaseView>, id: Seq<char>) -> bool {
    exists|i: int| 0 <= i < chain.len() && (#[trigger] chain[i]).lease_id == id
}

/// The leases from `id` up to a root, at most `hops` of them, behind those
/// that were found before.
pub open spec fn walk<L: LeaseResolver>(
    leases: L,
    id: Seq<char>,
    before: Seq<LeaseView>,
    hops: nat,
) -> Result<Seq<LeaseView>, LeaseErrorView>
    decreases hops,
{
    if hops == 0 {
        Ok(before)
    } else if holds_lease(before, id) {
        Err(LeaseErrorView::ChainCycle)
    } else {
        match leases.found(id) {
            None => Err(LeaseErrorView::NotFound(id)),
            Some(doc) => if doc.protocol_version != LEASE_PROTOCOL_VERSION {
                Err(LeaseErrorView::VersionMismatch(doc.protocol_version))
            } else {
                match doc.parent_id {
                    None => Ok(before.push(doc)),
                    Some(p) => walk(leases, p, before.push(doc), (hops - 1) as nat),
                }
            },
        }
    }
}

/// The identities of a chain.
pub open spec fn chain_ids(chain: Seq<LeaseView>) -> Seq<Seq<char>> {
    chain.map_values(|l: LeaseView| l.lease_id)
}

/// Strings with an arrow between them.
pub open spec fn arrows(parts: Seq<Seq<char>>) -> Seq<char>
    decreases parts.len(),
{
    if parts.len() == 0 {
        Seq::empty()
    } else if parts.len() == 1 {
        parts[0]
    } else {
        arrows(parts.drop_last()) + "->"@ + parts.last()
    }
}

/// The checks on a lease with its parent: the parent's subject issued and
/// signed it, its ancestry is live, and it narrows the parent.
pub open spec fn child_link(
    doc: LeaseView,
    parent: LeaseView,
    sessions: RegistryView,
    now_ms: i64,
) -> Result<(), LeaseErrorView> {
    if doc.issuer_key_id != parent.subject {
        Err(LeaseErrorView::IssuerMismatch(doc.issuer_key_id, parent.subject))
    } else if !sessions.sessions.dom().contains(parent.subject) {
        Err(LeaseErrorView::UnknownKey(parent.subject))
    } else if !sessions.subject_live(parent.subject, now_ms) {
        Err(LeaseErrorView::SubjectInactive(parent.subject))
    } else if !doc.verifies(sessions.sessions[parent.subject].verifying_key) {
        Err(LeaseErrorView::BadSignature)
    } else if doc.depth != parent.depth + 1 {
        Err(LeaseErrorView::DepthViolation(doc.depth, parent.depth_limit))
    } else if doc.depth >= parent.depth_limit {
        Err(LeaseErrorView::DepthViolation(doc.depth, parent.depth_limit))
    } else if doc.depth_limit > parent.depth_limit {
        Err(LeaseErrorView::DepthLimitTooWide(doc.depth_limit, parent.depth_limit))
    } else if doc.limits.expires_at_ms > parent.limits.expires_at_ms {
        Err(
            LeaseErrorView::ExpiryTooWide(
                doc.limits.expires_at_ms,
                parent.limits.expires_at_ms,
            ),
        )
    } else {
        match doc.scope.subset(parent.scope) {
            Err(e) => Err(LeaseErrorView::Subset(e)),
            Ok(_) => Ok(()),
        }
    }
}

/// The checks on the root: its subject's ancestry is live, and it is signed by
/// a known issuer generation that was not killed.
pub open spec fn root_link<K: IssuerKeyResolver>(
    doc: LeaseView,
    sessions: RegistryView,
    issuers: K,
    now_ms: i64,
) -> Result<(), LeaseErrorView> {
    if !sessions.subject_live(doc.subject, now_ms) {
        Err(LeaseErrorView::SubjectInactive(doc.subject))
    } else if issuers.killed(doc.issuer_key_id) {
        Err(LeaseErrorView::KilledIssuerGeneration(doc.issuer_key_id))
    } else {
        match issuers.key_of(doc.issuer_key_id) {
            None => Err(LeaseErrorView::UnknownIssuerGeneration(doc.issuer_key_id)),
            Some(key) => if !doc.verifies(key) {
                Err(LeaseErrorView::BadSignature)
            } else if doc.depth != 0 {
                Err(LeaseErrorView::DepthViolation(doc.depth, doc.depth_limit))
            } else {
                Ok(())
            },
        }
    }
}

/// The checks on the lease at position `i` of a chain.
pub open spec fn document_check<K: IssuerKeyResolver, T: OneShotTracker>(
    chain: Seq<LeaseView>,
    i: int,
    revocations: RevocationView,
    sessions: RegistryView,
    issuers: K,
    one_shot: T,
    now_ms: i64,
) -> Result<(), LeaseErrorView> {
    let doc = chain[i];
    if revocations.revoked.contains(doc.lease_id) {
        Err(LeaseErrorView::Revoked(doc.lease_id))
    } else if !doc.live_at(now_ms) {
        Err(LeaseErrorView::AlreadyExpired)
    } else if doc.limits.single_use && one_shot.used(doc.lease_id) {
        Err(LeaseErrorView::AlreadyConsumed(doc.lease_id))
    } else {
        let link = if i + 1 < chain.len() {
            child_link(doc, chain[i + 1], sessions, now_ms)
        } else {
            root_link(doc, sessions, issuers, now_ms)
        };
        match link {
            Err(e) => Err(e),
            Ok(_) => if doc.depth >= doc.depth_limit {
                Err(LeaseErrorView::DepthViolation(doc.depth, doc.depth_limit))
            } else {
                Ok(())
            },
        }
    }
}

/// The first check that fails from position `i` on.
pub open spec fn documents_check<K: IssuerKeyResolver, T: OneShotTracker>(
    chain: Seq<LeaseView>,
    i: int,
    revocations: RevocationView,
    sessions: RegistryView,
    issuers: K,
    one_shot: T,
    now_ms: i64,
) -> Result<(), LeaseErrorView>
    decreases chain.len() - i,
{
    if i < 0 || i >= chain.len() {
        Ok(())
    } else {
        match document_check(chain, i, revocations, sessions, issuers, one_shot, now_ms) {
            Err(e) => Err(e),
            Ok(_) => documents_check(
                chain,
                i + 1,
                revocations,
                sessions,
                issuers,
                one_shot,
                now_ms,
            ),
        }
    }
}

/// The validated chain of a presented one, leaf first.
pub open spec fn validated<L: LeaseResolver, K: IssuerKeyResolver, T: OneShotTracker>(
    leases: L,
    presented: Seq<Seq<char>>,
    revocations: RevocationView,
    sessions: RegistryView,
    issuers: K,
    one_shot: T,
    now_ms: i64,
) -> Result<Seq<LeaseView>, LeaseErrorView> {
    if presented.len() == 0 {
        Err(LeaseErrorView::NotFound("<empty chain>"@))
    } else {
        match walk(leases, presented[0], Seq::empty(), 128) {
            Err(e) => Err(e),
            Ok(chain) => if chain_ids(chain) != presented {
                Err(LeaseErrorView::ChainBreak(arrows(presented), arrows(chain_ids(chain))))
            } else {
                match documents_check(chain, 0, revocations, sessions, issuers, one_shot, now_ms) {
                    Err(e) => Err(e),
                    Ok(_) => Ok(chain),
                }
            },
        }
    }
}

/// The model of a validation.
pub open spec fn chain_outcome(r: Result<ValidatedChain, LeaseError>) -> Result<
    Seq<LeaseView>,
    LeaseErrorView,
> {
    match r {
        Ok(v) => Ok(lease_views(v.chain@)),
        Err(e) => Err(e@),
    }
}

fn has_lease(chain: &Vec<LeaseDocument>, id: &str) -> (r: bool)
    ensures
        r == holds_lease(lease_views(chain@), id@),
{
    let ghost c = lease_views(chain@);
    let mut i: usize = 0;
    while i < chain.len()
        invariant
            i <= chain@.len(),
            c == lease_views(chain@),
            forall|k: int| 0 <= k < i ==> (#[trigger] c[k]).lease_id != id@,
        decreases chain@.len() - i,
    {
        if str_eq(chain[i].lease_id.as_str(), id) {
            proof {
                assert(c[i as int].lease_id == id@);
            }
            return true;
        }
        i += 1;
    }
    false
}

fn with_arrows(parts: &Vec<String>) -> (r: String)
    ensures
        r@ == arrows(texts(parts@)),
{
    let ghost t = texts(parts@);
    let mut out = String::new();
    let mut i: usize = 0;
    proof {
        assert(t.take(0) =~= Seq::<Seq<char>>::empty());
        assert(out@ =~= Seq::<char>::empty());
    }
    while i < parts.len()
        invariant
            i <= parts@.len(),
            t == texts(parts@),
            out@ == arrows(t.take(i as int)),
        decreases parts@.len() - i,
    {
        proof {
            assert(t.take(i + 1).drop_last() =~= t.take(i as int));
            assert(t.take(i + 1).last() == parts@[i as int]@);
        }
        if i > 0 {
            out.append("->");
        }
        out.append(parts[i].as_str());
        proof {
            if i == 0 {
                assert(out@ =~= parts@[0]@);
                assert(t.take(1)[0] == parts@[0]@);
            }
        }
        i += 1;
    }
    proof {
        assert(t.take(i as int) =~= t);
    }
    out
}

fn ids_of(chain: &Vec<LeaseDocument>) -> (r: Vec<String>)
    ensures
        texts(r@) == chain_ids(lease_views(chain@)),
{
    let mut out: Vec<String> = Vec::new();
    let mut i: usize = 0;
    while i < chain.len()
        invariant
            i <= chain@.len(),
            out@.len() == i,
            forall|k: int| 0 <= k < i ==> (#[trigger] out@[k])@ == chain@[k].lease_id@,
        decreases chain@.len() - i,
    {
        out.push(chain[i].lease_id.clone());
        i += 1;
    }
    proof {
        assert(texts(out@) =~= chain_ids(lease_views(chain@)));
    }
    out
}

fn walk_chain<L: LeaseResolver>(leases: &L, leaf: &str) -> (r: Result<
    Vec<LeaseDocument>,
    LeaseError,
>)
    ensures
        match r {
            Ok(c) => walk(*leases, leaf@, Seq::empty(), 128) == Ok::<
                Seq<LeaseView>,
                LeaseErrorView,
            >(lease_views(c@)) && forall|i: int|
                0 <= i < c@.len() ==> (#[trigger] c@[i])@.scope.wf(),
            Err(e) => walk(*leases, leaf@, Seq::empty(), 128) == Err::<
                Seq<LeaseView>,
                LeaseErrorView,
            >(e@),
        },
{
    let mut chain: Vec<LeaseDocument> = Vec::new();
    let mut current = leaf.to_owned();
    let mut hops: u32 = 128;
    proof {
        assert(lease_views(chain@) =~= Seq::<LeaseView>::empty());
    }
    while hops > 0
        invariant
            hops <= 128,
            forall|i: int| 0 <= i < chain@.len() ==> (#[trigger] chain@[i])@.scope.wf(),
            walk(*leases, leaf@, Seq::empty(), 128) == walk(
                *leases,
                current@,
                lease_views(chain@),
                hops as nat,
            ),
        decreases hops,
    {
        if has_lease(&chain, current.as_str()) {
            return Err(LeaseError::ChainCycle);
        }
        let doc = match leases.lease(current.as_str()) {
            Some(d) => d,
            None => {
                return Err(LeaseError::NotFound(current));
            },
        };
        if doc.protocol_version != LEASE_PROTOCOL_VERSION {
            return Err(LeaseError::VersionMismatch(doc.protocol_version));
        }
        let parent = match &doc.parent_id {
            Some(p) => Some(p.clone()),
            None => None,
        };
        let ghost before = lease_views(chain@);
        let ghost dv = doc@;
        chain.push(doc);
        proof {
            assert(lease_views(chain@) =~= before.push(dv));
        }
        match parent {
            Some(p) => {
                current = p;
            },
            None => {
                return Ok(chain);
            },
        }
        hops -= 1;
    }
    Ok(chain)
}

fn check_child_link(
    doc: &LeaseDocument,
    parent: &LeaseDocument,
    sessions: &SessionRegistry,
    now_ms: i64,
) -> (r: Result<(), LeaseError>)
    requires
        sessions.wf(),
        doc@.scope.wf(),
        parent@.scope.wf(),
    ensures
        lease_unit(r) == child_link(doc@, parent@, sessions@, now_ms),
{
    if !str_eq(doc.issuer_key_id.as_str(), parent.subject.as_str()) {
        return Err(LeaseError::IssuerMismatch(doc.issuer_key_id.clone(), parent.subject.clone()));
    }
    let key: VerifyingKey = match sessions.get(parent.subject.as_str()) {
        Some(record) => record.verifying_key,
        None => {
            return Err(LeaseError::UnknownKey(parent.subject.clone()));
        },
    };
    if !sessions.is_subject_live(parent.subject.as_str(), now_ms) {
        return Err(LeaseError::SubjectInactive(parent.subject.clone()));
    }
    if let Err(e) = doc.verify_signature(&key) {
        return Err(e);
    }
    if parent.depth == u32::MAX || doc.depth != parent.depth + 1 {
        return Err(LeaseError::DepthViolation(doc.depth, parent.depth_limit));
    }
    if doc.depth >= parent.depth_limit {
        return Err(LeaseError::DepthViolation(doc.depth, parent.depth_limit));
    }
    if doc.depth_limit > parent.depth_limit {
        return Err(LeaseError::DepthLimitTooWide(doc.depth_limit, parent.depth_limit));
    }
    if doc.limits.expires_at_ms > parent.limits.expires_at_ms {
        return Err(
            LeaseError::ExpiryTooWide(doc.limits.expires_at_ms, parent.limits.expires_at_ms),
        );
    }
    match doc.scope.is_subset_of(&parent.scope) {
        Ok(_) => Ok(()),
        Err(e) => Err(LeaseError::Subset(e)),
    }
}

fn check_root_link<K: IssuerKeyResolver>(
    doc: &LeaseDocument,
    sessions: &SessionRegistry,
    issuers: &K,
    now_ms: i64,
) -> (r: Result<(), LeaseError>)
    requires
        sessions.wf(),
        doc@.scope.wf(),
    ensures
        lease_unit(r) == root_link(doc@, sessions@, *issuers, now_ms),
{
    if !sessions.is_subject_live(doc.subject.as_str(), now_ms) {
        return Err(LeaseError::SubjectInactive(doc.subject.clone()));
    }
    if issuers.is_generation_killed(doc.issuer_key_id.as_str()) {
        return Err(LeaseError::KilledIssuerGeneration(doc.issuer_key_id.clone()));
    }
    let key = match issuers.issuer_verifying_key(doc.issuer_key_id.as_str()) {
        Some(k) => k,
        None => {
            return Err(LeaseError::UnknownIssuerGeneration(doc.issuer_key_id.clone()));
        },
    };
    if let Err(e) = doc.verify_signature(&key) {
        return Err(e);
    }
    if doc.depth != 0 {
        return Err(LeaseError::DepthViolation(doc.depth, doc.depth_limit));
    }
    Ok(())
}

/// Validates a chain: signatures, expiry, revocation, depth, and narrowing at
/// every link. `presented` names the leases from the leaf to the root, and has
/// to be exactly the chain that the parent links give.
pub fn validate_chain<L: LeaseResolver, K: IssuerKeyResolver, T: OneShotTracker>(
    leases: &L,
    presented: &Vec<String>,
    revocations: &RevocationIndex,
    sessions: &SessionRegistry,
    issuers: &K,
    one_shot: &T,
    now_ms: i64,
) -> (r: Result<ValidatedChain, LeaseError>)
    requires
        sessions.wf(),
    ensures
        chain_outcome(r) == validated(
            *leases,
            texts(presented@),
            revocations@,
            sessions@,
            *issuers,
            *one_shot,
            now_ms,
        ),
        r matches Ok(v) ==> v.chain@.len() > 0 && v.leaf@ == v.chain@[0]@ && v.leaf@.scope.wf(),
{
    if presented.len() == 0 {
        return Err(LeaseError::NotFound("<empty chain>".to_owned()));
    }
    let chain = match walk_chain(leases, presented[0].as_str()) {
        Ok(c) => c,
        Err(e) => {
            return Err(e);
        },
    };
    let walked = ids_of(&chain);
    if !same_strings(&walked, presented) {
        return Err(LeaseError::ChainBreak(with_arrows(presented), with_arrows(&walked)));
    }
    let ghost views = lease_views(chain@);
    proof {
        assert(chain_ids(views).len() == chain@.len());
    }
    let mut i: usize = 0;
    while i < chain.len()
        invariant
            i <= chain@.len(),
            sessions.wf(),
            views == lease_views(chain@),
            forall|k: int| 0 <= k < chain@.len() ==> (#[trigger] chain@[k])@.scope.wf(),
            presented@.len() > 0,
            walk(*leases, texts(presented@)[0], Seq::empty(), 128) == Ok::<
                Seq<LeaseView>,
                LeaseErrorView,
            >(views),
            chain_ids(views) == texts(presented@),
            documents_check(views, 0, revocations@, sessions@, *issuers, *one_shot, now_ms)
                == documents_check(
                views,
                i as int,
                revocations@,
                sessions@,
                *issuers,
                *one_shot,
                now_ms,
            ),
        decreases chain@.len() - i,
    {
        let doc = &chain[i];
        proof {
            assert(views[i as int] == doc@);
        }
        if revocations.is_revoked(doc.lease_id.as_str()) {
            return Err(LeaseError::Revoked(doc.lease_id.clone()));
        }
        if !doc.live_at(now_ms) {
            return Err(LeaseError::AlreadyExpired);
        }
        if doc.limits.single_use && one_shot.is_consumed(doc.lease_id.as_str()) {
            return Err(LeaseError::AlreadyConsumed(doc.lease_id.clone()));
        }
        if i + 1 < chain.len() {
            proof {
                assert(views[i + 1] == chain@[i + 1]@);
            }
            if let Err(e) = check_child_link(doc, &chain[i + 1], sessions, now_ms) {
                return Err(e);
            }
        } else {
            if let Err(e) = check_root_link(doc, sessions, issuers, now_ms) {
                return Err(e);
            }
        }
        if doc.depth >= doc.depth_limit {
            return Err(LeaseError::DepthViolation(doc.depth, doc.depth_limit));
        }
        i += 1;
    }
    let leaf = chain[0].clone();
    Ok(ValidatedChain { leaf, chain })
}

proof fn each_document<K: IssuerKeyResolver, T: OneShotTracker>(
    chain: Seq<LeaseView>,
    i: int,
    revocations: RevocationView,
    sessions: RegistryView,
    issuers: K,
    one_shot: T,
    now_ms: i64,
    k: int,
)
    requires
        0 <= i <= k < chain.len(),
        documents_check(chain, i, revocations, sessions, issuers, one_shot, now_ms) is Ok,
    ensures
        document_check(chain, k, revocations, sessions, issuers, one_shot, now_ms) is Ok,
    decreases chain.len() - i,
{
    if i < k {
        each_document(chain, i + 1, revocations, sessions, issuers, one_shot, now_ms, k);
    }
}

/// In a validated chain no lease is revoked, expired or used up, and each lease
/// narrows the one above it: revoking a lease invalidates every descendant.
pub proof fn validated_chains_hold_at_every_link<
    L: LeaseResolver,
    K: IssuerKeyResolver,
    T: OneShotTracker,
>(
    leases: L,
    presented: Seq<Seq<char>>,
    revocations: RevocationView,
    sessions: RegistryView,
    issuers: K,
    one_shot: T,
    now_ms: i64,
    k: int,
)
    requires
        validated(leases, presented, revocations, sessions, issuers, one_shot, now_ms) is Ok,
        0 <= k < presented.len(),
    ensures
        ({
            let chain = validated(
                leases,
                presented,
                revocations,
                sessions,
                issuers,
                one_shot,
                now_ms,
            )->Ok_0;
            &&& chain.len() == presented.len()
            &&& chain[k].lease_id == presented[k]
            &&& !revocations.revoked.contains(presented[k])
            &&& chain[k].live_at(now_ms)
            &&& chain[k].limits.single_use ==> !one_shot.used(presented[k])
            &&& chain[k].depth < chain[k].depth_limit
            &&& k + 1 < presented.len() ==> {
                &&& chain[k].scope.subset(chain[k + 1].scope) is Ok
                &&& chain[k].limits.expires_at_ms <= chain[k + 1].limits.expires_at_ms
                &&& chain[k].depth == chain[k + 1].depth + 1
                &&& chain[k].issuer_key_id == chain[k + 1].subject
                &&& sessions.subject_live(chain[k + 1].subject, now_ms)
            }
            &&& k + 1 == presented.len() ==> {
                &&& chain[k].depth == 0
                &&& sessions.subject_live(chain[k].subject, now_ms)
                &&& !issuers.killed(chain[k].issuer_key_id)
            }
        }),
{
    let chain = walk(leases, presented[0], Seq::empty(), 128)->Ok_0;
    assert(chain_ids(chain).len() == chain.len());
    assert(chain_ids(chain)[k] == chain[k].lease_id);
    each_document(chain, 0, revocations, sessions, issuers, one_shot, now_ms, k);
}

proof fn walk_links<L: LeaseResolver>(
    leases: L,
    id: Seq<char>,
    before: Seq<LeaseView>,
    hops: nat,
    k: int,
)
    requires
        walk(leases, id, before, hops) is Ok,
        before.len() <= k < walk(leases, id, before, hops)->Ok_0.len(),
    ensures
        ({
            let chain = walk(leases, id, before, hops)->Ok_0;
            &&& before.is_prefix_of(chain)
            &&& hops > 0
            &&& leases.found(id) == Some(chain[before.len() as int])
            &&& chain[k].protocol_version == LEASE_PROTOCOL_VERSION
            &&& k + 1 < chain.len() ==> chain[k].parent_id is Some && leases.found(
                chain[k].parent_id->0,
            ) == Some(chain[k + 1])
            &&& k + 1 == chain.len() && chain.len() < before.len() + hops
                ==> chain[k].parent_id is None
        }),
    decreases hops,
{
    let chain = walk(leases, id, before, hops)->Ok_0;
    if hops == 0 {
        assert(chain == before);
    } else {
        let doc = leases.found(id)->Some_0;
        let next = before.push(doc);
        assert(next.subrange(0, before.len() as int) =~= before);
        match doc.parent_id {
            None => {
                assert(chain == next);
                assert(chain.subrange(0, before.len() as int) =~= before);
            },
            Some(p) => {
                if chain.len() > next.len() {
                    let at = if k == before.len() {
                        k + 1
                    } else {
                        k
                    };
                    walk_links(leases, p, next, (hops - 1) as nat, at);
                    assert(chain.subrange(0, next.len() as int)[before.len() as int]
                        == chain[before.len() as int]);
                    assert(chain.subrange(0, before.len() as int) =~= next.subrange(
                        0,
                        before.len() as int,
                    ));
                } else {
                    walk_grows(leases, p, next, (hops - 1) as nat);
                    assert(chain =~= next);
                    assert(chain.subrange(0, before.len() as int) =~= before);
                }
            },
        }
    }
}

proof fn walk_grows<L: LeaseResolver>(
    leases: L,
    id: Seq<char>,
    before: Seq<LeaseView>,
    hops: nat,
)
    requires
        walk(leases, id, before, hops) is Ok,
    ensures
        walk(leases, id, before, hops)->Ok_0.len() >= before.len() + (if hops > 0 {
            1int
        } else {
            0int
        }),
        hops == 0 ==> walk(leases, id, before, hops)->Ok_0 == before,
    decreases hops,
{
    if hops > 0 {
        let doc = leases.found(id)->Some_0;
        if let Some(p) = doc.parent_id {
            walk_grows(leases, p, before.push(doc), (hops - 1) as nat);
        }
    }
}

/// A validated chain is the one that the leases themselves name, from the leaf
/// that was presented over each parent to the root, and it is signed at every
/// link: a child with the key of its parent's subject, which is registered, the
/// root with the key of its issuer's generation. Each lease speaks this version
/// and is within its time, and the limits of depth only shrink.
pub proof fn validated_chains_are_signed_at_every_link<
    L: LeaseResolver,
    K: IssuerKeyResolver,
    T: OneShotTracker,
>(
    leases: L,
    presented: Seq<Seq<char>>,
    revocations: RevocationView,
    sessions: RegistryView,
    issuers: K,
    one_shot: T,
    now_ms: i64,
    k: int,
)
    requires
        validated(leases, presented, revocations, sessions, issuers, one_shot, now_ms) is Ok,
        0 <= k < presented.len(),
    ensures
        ({
            let chain = validated(
                leases,
                presented,
                revocations,
                sessions,
                issuers,
                one_shot,
                now_ms,
            )->Ok_0;
            let lease = chain[k];
            let covered = encode_utf8(lease.signing_text());
            &&& chain.len() == presented.len()
            &&& leases.found(presented[0]) == Some(chain[0])
            &&& lease.lease_id == presented[k]
            &&& lease.protocol_version == 2
            &&& lease.limits.not_before_ms <= now_ms < lease.limits.expires_at_ms
            &&& k + 1 < presented.len() ==> {
                let parent = chain[k + 1];
                &&& lease.parent_id is Some && leases.found(lease.parent_id->0) == Some(parent)
                &&& sessions.sessions.dom().contains(parent.subject)
                &&& signed_by(
                    sessions.sessions[parent.subject].verifying_key,
                    covered,
                    lease.signature,
                )
                &&& lease.depth < parent.depth_limit
                &&& lease.depth_limit <= parent.depth_limit
            }
            &&& k + 1 == presented.len() ==> {
                &&& issuers.key_of(lease.issuer_key_id) is Some
                &&& signed_by(
                    issuers.key_of(lease.issuer_key_id)->0,
                    covered,
                    lease.signature,
                )
                &&& chain.len() < 128 ==> lease.parent_id is None
            }
        }),
{
    let chain = walk(leases, presented[0], Seq::empty(), 128)->Ok_0;
    assert(chain_ids(chain).len() == chain.len());
    assert(chain_ids(chain)[k] == chain[k].lease_id);
    each_document(chain, 0, revocations, sessions, issuers, one_shot, now_ms, k);
    walk_links(leases, presented[0], Seq::empty(), 128, k);
}

/// A lease in a chain is accepted exactly if it was not revoked, is within its
/// time, was not used before where it is for a single use, lies above its limit
/// of depth, and is linked: a child was issued by its parent's subject, who is
/// registered and live, with that subject's key, one deeper than the parent and
/// within its depth, its limit of depth, its time and its scope; a root has a
/// live subject and was signed by an issuer generation that is known and was not
/// killed, at depth zero.
pub proof fn accepted_leases_meet_every_check<K: IssuerKeyResolver, T: OneShotTracker>(
    chain: Seq<LeaseView>,
    i: int,
    revocations: RevocationView,
    sessions: RegistryView,
    issuers: K,
    one_shot: T,
    now_ms: i64,
)
    requires
        0 <= i < chain.len(),
    ensures
        ({
            let doc = chain[i];
            let parent = chain[i + 1];
            document_check(chain, i, revocations, sessions, issuers, one_shot, now_ms) is Ok <==> {
                &&& !revocations.revoked.contains(doc.lease_id)
                &&& doc.limits.not_before_ms <= now_ms < doc.limits.expires_at_ms
                &&& doc.limits.single_use ==> !one_shot.used(doc.lease_id)
                &&& doc.depth < doc.depth_limit
                &&& i + 1 < chain.len() ==> {
                    &&& doc.issuer_key_id == parent.subject
                    &&& sessions.sessions.dom().contains(parent.subject)
                    &&& sessions.subject_live(parent.subject, now_ms)
                    &&& doc.verifies(sessions.sessions[parent.subject].verifying_key)
                    &&& doc.depth == parent.depth + 1
                    &&& doc.depth < parent.depth_limit
                    &&& doc.depth_limit <= parent.depth_limit
                    &&& doc.limits.expires_at_ms <= parent.limits.expires_at_ms
                    &&& doc.scope.subset(parent.scope) is Ok
                }
                &&& i + 1 == chain.len() ==> {
                    &&& sessions.subject_live(doc.subject, now_ms)
                    &&& !issuers.killed(doc.issuer_key_id)
                    &&& issuers.key_of(doc.issuer_key_id) matches Some(key) && doc.verifies(key)
                    &&& doc.depth == 0
                }
            }
        }),
{
}

} // verus!
