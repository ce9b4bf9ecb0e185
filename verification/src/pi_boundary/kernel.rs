//! A kernel that holds leases in memory: it validates envelopes, checks the
//! lease chain with narrowing at every link, and audits every verdict.

use crate::lists::views;
use super::audit::{
    append_keeps_the_chain, chain_result, linked, ActorView, AuditActor, AuditEvent, AuditEventKind,
    AuditLog, EventView,
};
use super::decision::{
    decided, deny, DecisionOutcome, DecisionView, DenyReason, DenyView, Obligation,
    ObligationView, OutcomeView, PolicyDecision,
};
use super::envelope::{
    canonical_path, lexical_path, path_prefix_covers, prefix_covers, ActionEnvelope,
    EnvelopeView, LeaseId, PathResource, PathResourceView, PathRights,
};
use super::{KernelError, KernelErrorView, AUDIT_EVENT_VERSION};
use crate::clock::now_ms;
use crate::ids::random_uuid;
use crate::json::{Json, JsonView};
use crate::ordered::{ascending_keys, lookup};
use crate::text::{clone_strings, concat, contains_str, from_chars, surround, texts, to_chars};
use vstd::prelude::*;

verus! {

/// The policy interface of a kernel.
pub trait Kernel {
    /// Evaluates one action. The keys of its arguments ascend, as those of
    /// every table do.
    fn evaluate(&mut self, envelope: &ActionEnvelope) -> Result<PolicyDecision, KernelError>
        requires
            ascending_keys(envelope.arguments@),
    ;
}

/// A lease as the kernel holds it.
#[derive(Debug)]
pub struct LeaseRecord {
    pub id: LeaseId,
    pub subject: String,
    pub parent: Option<LeaseId>,
    pub path_prefixes: Vec<String>,
    pub verbs: Vec<String>,
    pub not_before_ms: i64,
    pub expires_at_ms: i64,
    pub revoked: bool,
    pub depth: u32,
    pub max_depth: u32,
}

/// The model of a `LeaseRecord`.
pub struct RecordView {
    pub id: LeaseId,
    pub subject: Seq<char>,
    pub parent: Option<LeaseId>,
    pub path_prefixes: Seq<Seq<char>>,
    pub verbs: Seq<Seq<char>>,
    pub not_before_ms: i64,
    pub expires_at_ms: i64,
    pub revoked: bool,
    pub depth: u32,
    pub max_depth: u32,
}

impl View for LeaseRecord {
    type V = RecordView;

    open spec fn view(&self) -> RecordView {
        RecordView {
            id: self.id,
            subject: self.subject@,
            parent: self.parent,
            path_prefixes: texts(self.path_prefixes@),
            verbs: texts(self.verbs@),
            not_before_ms: self.not_before_ms,
            expires_at_ms: self.expires_at_ms,
            revoked: self.revoked,
            depth: self.depth,
            max_depth: self.max_depth,
        }
    }
}

impl Clone for LeaseRecord {
    fn clone(&self) -> (r: LeaseRecord)
        ensures
            r@ == self@,
    {
        LeaseRecord {
            id: self.id,
            subject: self.subject.clone(),
            parent: self.parent,
            path_prefixes: clone_strings(&self.path_prefixes),
            verbs: clone_strings(&self.verbs),
            not_before_ms: self.not_before_ms,
            expires_at_ms: self.expires_at_ms,
            revoked: self.revoked,
            depth: self.depth,
            max_depth: self.max_depth,
        }
    }
}

/// The policy of a kernel.
#[derive(Clone, Debug)]
pub struct LocalKernelConfig {
    /// Roots that a human may approve on demand.
    pub approvable_roots: Vec<String>,
    /// The output limit that every allowed action carries.
    pub default_max_output_bytes: u64,
}

impl Default for LocalKernelConfig {
    fn default() -> (r: LocalKernelConfig)
        ensures
            r.approvable_roots@.len() == 0,
            r.default_max_output_bytes == 65536,
    {
        LocalKernelConfig { approvable_roots: Vec::new(), default_max_output_bytes: 65536 }
    }
}

/// A kernel with its leases, the nonces it has seen, and its audit log.
#[derive(Debug)]
pub struct LocalKernel {
    config: LocalKernelConfig,
    leases: Vec<LeaseRecord>,
    seen_nonces: Vec<String>,
    audit: AuditLog,
}

/// The model of a `LocalKernel`.
pub struct KernelView {
    pub roots: Seq<Seq<char>>,
    pub max_output: u64,
    /// The leases, newest first.
    pub leases: Seq<RecordView>,
    pub nonces: Seq<Seq<char>>,
    pub events: Seq<EventView>,
}

impl View for LocalKernel {
    type V = KernelView;

    closed spec fn view(&self) -> KernelView {
        KernelView {
            roots: texts(self.config.approvable_roots@),
            max_output: self.config.default_max_output_bytes,
            leases: views(self.leases@),
            nonces: texts(self.seen_nonces@),
            events: self.audit@,
        }
    }
}

/// The lease with the given identity, from position `i` on.
pub open spec fn find_lease(leases: Seq<RecordView>, id: LeaseId, i: int) -> Option<RecordView>
    decreases leases.len() - i,
{
    if i < 0 || i >= leases.len() {
        None
    } else if leases[i].id == id {
        Some(leases[i])
    } else {
        find_lease(leases, id, i + 1)
    }
}

/// Some prefix covers the path.
pub open spec fn covered(prefixes: Seq<Seq<char>>, path: Seq<char>) -> bool {
    exists|i: int| 0 <= i < prefixes.len() && prefix_covers(#[trigger] prefixes[i], path)
}

/// The first prefix from position `i` on that no parent prefix covers.
pub open spec fn uncovered(prefixes: Seq<Seq<char>>, parent: Seq<Seq<char>>, i: int) -> Option<
    Seq<char>,
>
    decreases prefixes.len() - i,
{
    if i < 0 || i >= prefixes.len() {
        None
    } else if !covered(parent, prefixes[i]) {
        Some(prefixes[i])
    } else {
        uncovered(prefixes, parent, i + 1)
    }
}

/// The first verb from position `i` on that the parent does not grant.
pub open spec fn ungranted(verbs: Seq<Seq<char>>, parent: Seq<Seq<char>>, i: int) -> Option<
    Seq<char>,
>
    decreases verbs.len() - i,
{
    if i < 0 || i >= verbs.len() {
        None
    } else if !parent.contains(verbs[i]) {
        Some(verbs[i])
    } else {
        ungranted(verbs, parent, i + 1)
    }
}

impl RecordView {
    /// Whether a child with the given prefixes, verbs and expiry narrows this
    /// lease.
    pub open spec fn admits(
        self,
        prefixes: Seq<Seq<char>>,
        verbs: Seq<Seq<char>>,
        expires_at_ms: i64,
    ) -> Result<(), KernelErrorView> {
        if self.revoked {
            Err(KernelErrorView::MalformedRequest("parent lease revoked"@))
        } else if self.depth + 1 > self.max_depth {
            Err(KernelErrorView::MalformedRequest("delegation depth exceeded"@))
        } else if expires_at_ms > self.expires_at_ms {
            Err(KernelErrorView::MalformedRequest("child expiry exceeds parent expiry"@))
        } else if let Some(p) = uncovered(prefixes, self.path_prefixes, 0) {
            Err(
                KernelErrorView::MalformedRequest(
                    "child prefix '"@ + p + "' not covered by parent"@,
                ),
            )
        } else if let Some(v) = ungranted(verbs, self.verbs, 0) {
            Err(KernelErrorView::MalformedRequest("child verb '"@ + v + "' not granted by parent"@))
        } else {
            Ok(())
        }
    }
}

/// The checks on one link of a presented chain. `child` is the record before
/// it, if there is one.
pub open spec fn link_check(
    record: RecordView,
    child: Option<RecordView>,
    session: Seq<char>,
    now: i64,
) -> Result<(), DenyView> {
    let id = record.id.text();
    if record.revoked {
        Err(deny("lease_revoked"@, "lease "@ + id + " was revoked"@))
    } else if now < record.not_before_ms || now > record.expires_at_ms {
        Err(deny("lease_expired"@, "lease "@ + id + " is outside its validity window"@))
    } else {
        match child {
            Some(c) => if c.parent != Some(record.id) {
                Err(deny("invalid_envelope"@, "lease chain link broken at "@ + id))
            } else if let Some(p) = uncovered(c.path_prefixes, record.path_prefixes, 0) {
                Err(
                    deny(
                        "scope_exceeded"@,
                        "child prefix '"@ + p + "' exceeds parent lease "@ + id,
                    ),
                )
            } else if c.expires_at_ms > record.expires_at_ms {
                Err(deny("scope_exceeded"@, "child expiry exceeds parent lease "@ + id))
            } else {
                Ok(())
            },
            None => if record.subject != session {
                Err(deny("subject_mismatch"@, "leaf lease subject does not match session"@))
            } else {
                Ok(())
            },
        }
    }
}

/// The last record of the presented chain from position `i` on, or what the
/// chain is denied for.
pub open spec fn walk_chain(
    leases: Seq<RecordView>,
    chain: Seq<LeaseId>,
    session: Seq<char>,
    now: i64,
    i: int,
    child: Option<RecordView>,
) -> Result<Option<RecordView>, DenyView>
    decreases chain.len() - i,
{
    if i < 0 || i >= chain.len() {
        Ok(child)
    } else {
        match find_lease(leases, chain[i], 0) {
            None => Err(
                deny(
                    "unknown_lease"@,
                    "lease "@ + chain[i].text() + " is not known to the kernel"@,
                ),
            ),
            Some(record) => match link_check(record, child, session, now) {
                Err(d) => Err(d),
                Ok(_) => walk_chain(leases, chain, session, now, i + 1, Some(record)),
            },
        }
    }
}

/// The leaf lease of the presented chain, or what the chain is denied for. The
/// chain has to end at a root lease.
pub open spec fn resolved(
    leases: Seq<RecordView>,
    chain: Seq<LeaseId>,
    session: Seq<char>,
    now: i64,
) -> Result<RecordView, DenyView> {
    if chain.len() == 0 {
        Err(deny("no_lease_for_action"@, "envelope carries no lease chain"@))
    } else {
        match walk_chain(leases, chain, session, now, 0, None) {
            Err(d) => Err(d),
            Ok(last) => if last->0.parent is Some {
                Err(
                    deny(
                        "invalid_envelope"@,
                        "lease chain does not terminate at a root lease"@,
                    ),
                )
            } else {
                Ok(find_lease(leases, chain[0], 0)->0)
            },
        }
    }
}

/// The action is a plain read through the mediated read tool.
pub open spec fn is_read(env: EnvelopeView) -> bool {
    &&& env.tool_name == "bct.read_file"@
    &&& env.effects.file_read
    &&& !env.effects.file_write
    &&& !env.effects.network_egress
    &&& !env.effects.network_ingress
    &&& !env.effects.process_spawn
}

/// The normalized path, or an empty one.
pub open spec fn path_or_empty(p: Seq<char>) -> Seq<char> {
    match lexical_path(p) {
        Ok(t) => t,
        Err(_) => Seq::empty(),
    }
}

/// The paths that an action touches: those it declares, and the one that its
/// `path` argument names.
pub open spec fn action_paths(env: EnvelopeView) -> Seq<Seq<char>> {
    let declared = env.paths.map_values(|p: PathResourceView| path_or_empty(p.path));
    match lookup(env.arguments, "path"@) {
        Some(JsonView::Str(arg)) => match lexical_path(arg) {
            Ok(canon) => if declared.contains(canon) {
                declared
            } else {
                declared.push(canon)
            },
            Err(_) => declared,
        },
        _ => declared,
    }
}

/// The start of a digest.
pub open spec fn short(d: Seq<char>) -> Seq<char> {
    if d.len() < 16 {
        d
    } else {
        d.take(16)
    }
}

/// Some declared path asks for read rights.
pub open spec fn asks_to_read(paths: Seq<PathResourceView>) -> bool {
    exists|i: int| 0 <= i < paths.len() && (#[trigger] paths[i]).rights == PathRights::Read
}

/// The outcome for the first path from position `i` on that is not plainly
/// covered.
pub open spec fn path_outcome(
    paths: Seq<Seq<char>>,
    i: int,
    leaf: RecordView,
    roots: Seq<Seq<char>>,
    env: EnvelopeView,
) -> Option<Result<DecisionView, DenyView>>
    decreases paths.len() - i,
{
    if i < 0 || i >= paths.len() {
        None
    } else if !covered(leaf.path_prefixes, paths[i]) {
        if covered(roots, paths[i]) {
            let digest = match env.digest() {
                Ok(d) => d,
                Err(_) => Seq::empty(),
            };
            Some(
                Ok(
                    decided(
                        OutcomeView::Pending {
                            approval_id: "apr-"@ + short(digest),
                            reason: "path '"@ + paths[i]
                                + "' is outside the lease; human approval required"@,
                        },
                    ),
                ),
            )
        } else {
            Some(
                Err(
                    deny(
                        "scope_exceeded"@,
                        "path '"@ + paths[i] + "' is outside the leaf lease scope"@,
                    ),
                ),
            )
        }
    } else if !asks_to_read(env.paths) {
        Some(
            Err(
                deny(
                    "scope_exceeded"@,
                    "path '"@ + paths[i] + "' is not requested with read rights"@,
                ),
            ),
        )
    } else {
        path_outcome(paths, i + 1, leaf, roots, env)
    }
}

/// The decision on a validated action under its leaf lease.
pub open spec fn read_policy(
    env: EnvelopeView,
    leaf: RecordView,
    roots: Seq<Seq<char>>,
    max_output: u64,
) -> Result<DecisionView, DenyView> {
    if !is_read(env) {
        Err(
            deny(
                "scope_exceeded"@,
                "tool '"@ + env.tool_name + "' is not covered by the phase-0 read policy"@,
            ),
        )
    } else if !leaf.verbs.contains("read"@) {
        Err(deny("scope_exceeded"@, "leaf lease does not grant the read verb"@))
    } else if action_paths(env).len() == 0 {
        Err(deny("invalid_envelope"@, "read action names no path"@))
    } else {
        match path_outcome(action_paths(env), 0, leaf, roots, env) {
            Some(r) => r,
            None => Ok(
                decided(
                    OutcomeView::Allow(
                        Seq::<ObligationView>::empty().push(
                            ObligationView::TruncateOutput { max_bytes: max_output },
                        ).push(ObligationView::RedactSecrets),
                    ),
                ),
            ),
        }
    }
}

/// What the clock and the identifier source gave during one evaluation.
#[derive(Clone, Copy, Debug)]
pub struct Readings {
    pub proposed_at: i64,
    pub expiry_at: i64,
    pub chain_at: i64,
    pub verdict_at: i64,
    pub proposed_id: u128,
    pub verdict_id: u128,
}

impl Readings {
    /// Reads the clock and draws identifiers. Nothing is claimed of them.
    pub(crate) fn take() -> (r: Readings) {
        Readings {
            proposed_at: now_ms(),
            expiry_at: now_ms(),
            chain_at: now_ms(),
            verdict_at: now_ms(),
            proposed_id: random_uuid(),
            verdict_id: random_uuid(),
        }
    }
}

/// An event before it is linked into the log.
pub open spec fn event_of(
    id: u128,
    timestamp_ms: i64,
    actor: ActorView,
    kind: AuditEventKind,
    session_id: Seq<char>,
    action_digest: Seq<char>,
    decision: Option<DecisionView>,
    detail: Seq<char>,
) -> EventView {
    EventView {
        version: AUDIT_EVENT_VERSION,
        event_id: id,
        sequence: 0,
        timestamp_ms,
        actor,
        kind,
        session_id,
        action_digest,
        decision: match decision {
            Some(d) => Some(d.summary()),
            None => None,
        },
        detail,
        prev_hash: ""@,
        hash: ""@,
    }
}

/// The kind of event that records a decision.
pub open spec fn verdict_kind(d: DecisionView) -> AuditEventKind {
    match d.outcome {
        OutcomeView::Allow(_) => AuditEventKind::PolicyAllowed,
        OutcomeView::Deny(_) => AuditEventKind::PolicyDenied,
        OutcomeView::Pending { .. } => AuditEventKind::ApprovalRequested,
    }
}

/// The detail of the event that records a decision.
pub open spec fn verdict_detail(d: DecisionView) -> Seq<char> {
    match d.outcome {
        OutcomeView::Allow(_) => "within lease scope"@,
        OutcomeView::Deny(reason) => reason.code + ": "@ + reason.detail,
        OutcomeView::Pending { approval_id, reason } => approval_id + ": "@ + reason,
    }
}

impl KernelView {
    /// The audit log holds together: every event is numbered, linked to the one
    /// before it, and hashed. A new kernel has such a log, and everything that a
    /// kernel does keeps it.
    pub open spec fn log_verifies(self) -> bool {
        chain_result(self.events) is Ok
    }

    /// The nonces after an action was judged, and the judgement. A malformed
    /// envelope does not use up its nonce.
    pub open spec fn judge(self, env: EnvelopeView, r: Readings) -> (
        Seq<Seq<char>>,
        Result<DecisionView, DenyView>,
    ) {
        match env.check() {
            Err(e) => (self.nonces, Err(deny("invalid_envelope"@, e.message()))),
            Ok(_) => if self.nonces.contains(env.nonce) {
                (self.nonces, Err(deny("replay_detected"@, "envelope nonce was already used"@)))
            } else {
                (
                    self.nonces.push(env.nonce),
                    if env.expires_at_ms <= r.expiry_at {
                        Err(deny("expired_action"@, "envelope expired"@))
                    } else {
                        match resolved(self.leases, env.lease_chain, env.session_id, r.chain_at) {
                            Err(d) => Err(d),
                            Ok(leaf) => read_policy(env, leaf, self.roots, self.max_output),
                        }
                    },
                )
            },
        }
    }

    /// The decision on an action: a judgement that is not a decision denies.
    pub open spec fn decide(self, env: EnvelopeView, r: Readings) -> DecisionView {
        match self.judge(env, r).1 {
            Ok(d) => d,
            Err(reason) => decided(OutcomeView::Deny(reason)),
        }
    }

    /// The kernel after an evaluation: the nonce is used up, and the proposal
    /// and the verdict stand in the log.
    pub open spec fn evaluated(self, env: EnvelopeView, r: Readings) -> KernelView {
        let digest = match env.digest() {
            Ok(d) => d,
            Err(_) => "none"@,
        };
        let actor = ActorView::Session(env.session_id);
        let proposed = self.events.push(
            linked(
                self.events,
                event_of(
                    r.proposed_id,
                    r.proposed_at,
                    actor,
                    AuditEventKind::ActionProposed,
                    env.session_id,
                    digest,
                    None,
                    "tool "@ + env.tool_name,
                ),
            ),
        );
        let d = self.decide(env, r);
        KernelView {
            nonces: self.judge(env, r).0,
            events: proposed.push(
                linked(
                    proposed,
                    event_of(
                        r.verdict_id,
                        r.verdict_at,
                        actor,
                        verdict_kind(d),
                        env.session_id,
                        digest,
                        Some(d),
                        verdict_detail(d),
                    ),
                ),
            ),
            ..self
        }
    }

    /// The kernel with one more lease.
    pub open spec fn holding(self, record: RecordView) -> KernelView {
        KernelView { leases: self.leases.insert(0, record), ..self }
    }
}

/// A root lease.
pub open spec fn root_record(
    id: LeaseId,
    subject: Seq<char>,
    prefixes: Seq<Seq<char>>,
    verbs: Seq<Seq<char>>,
    now: i64,
    expires_at_ms: i64,
) -> RecordView {
    RecordView {
        id,
        subject,
        parent: None,
        path_prefixes: prefixes,
        verbs,
        not_before_ms: now,
        expires_at_ms,
        revoked: false,
        depth: 0,
        max_depth: 8,
    }
}

/// A child of `parent`.
pub open spec fn child_record(
    parent: RecordView,
    parent_id: LeaseId,
    id: LeaseId,
    subject: Seq<char>,
    prefixes: Seq<Seq<char>>,
    verbs: Seq<Seq<char>>,
    now: i64,
    expires_at_ms: i64,
) -> RecordView {
    RecordView {
        id,
        subject,
        parent: Some(parent_id),
        path_prefixes: prefixes,
        verbs,
        not_before_ms: now,
        expires_at_ms,
        revoked: false,
        depth: (parent.depth + 1) as u32,
        max_depth: parent.max_depth,
    }
}

/// The leases with the first one of the given identity revoked, from position
/// `i` on.
pub open spec fn revoked_at(leases: Seq<RecordView>, id: LeaseId, i: int) -> Seq<RecordView>
    decreases leases.len() - i,
{
    if i < 0 || i >= leases.len() {
        leases
    } else if leases[i].id == id {
        leases.update(i, RecordView { revoked: true, ..leases[i] })
    } else {
        revoked_at(leases, id, i + 1)
    }
}

/// The model of an outcome that gives an identity.
pub open spec fn lease_outcome(r: Result<LeaseId, KernelError>) -> Result<
    LeaseId,
    KernelErrorView,
> {
    match r {
        Ok(id) => Ok(id),
        Err(e) => Err(e@),
    }
}

fn is_covered(prefixes: &Vec<String>, path: &str) -> (r: bool)
    ensures
        r == covered(texts(prefixes@), path@),
{
    let ghost t = texts(prefixes@);
    let mut i: usize = 0;
    while i < prefixes.len()
        invariant
            i <= prefixes@.len(),
            t == texts(prefixes@),
            forall|k: int| 0 <= k < i ==> !prefix_covers(#[trigger] t[k], path@),
        decreases prefixes@.len() - i,
    {
        if path_prefix_covers(prefixes[i].as_str(), path) {
            proof {
                assert(prefix_covers(t[i as int], path@));
            }
            return true;
        }
        i += 1;
    }
    false
}

fn first_uncovered(prefixes: &Vec<String>, parent: &Vec<String>) -> (r: Option<usize>)
    ensures
        match r {
            Some(i) => i < prefixes@.len() && uncovered(texts(prefixes@), texts(parent@), 0)
                == Some(prefixes@[i as int]@),
            None => uncovered(texts(prefixes@), texts(parent@), 0) is None,
        },
{
    let ghost t = texts(prefixes@);
    let ghost p = texts(parent@);
    let mut i: usize = 0;
    while i < prefixes.len()
        invariant
            i <= prefixes@.len(),
            t == texts(prefixes@),
            p == texts(parent@),
            uncovered(t, p, 0) == uncovered(t, p, i as int),
        decreases prefixes@.len() - i,
    {
        proof {
            assert(t[i as int] == prefixes@[i as int]@);
        }
        if !is_covered(parent, prefixes[i].as_str()) {
            return Some(i);
        }
        i += 1;
    }
    None
}

fn first_ungranted(verbs: &Vec<String>, parent: &Vec<String>) -> (r: Option<usize>)
    ensures
        match r {
            Some(i) => i < verbs@.len() && ungranted(texts(verbs@), texts(parent@), 0) == Some(
                verbs@[i as int]@,
            ),
            None => ungranted(texts(verbs@), texts(parent@), 0) is None,
        },
{
    let ghost t = texts(verbs@);
    let ghost p = texts(parent@);
    let mut i: usize = 0;
    while i < verbs.len()
        invariant
            i <= verbs@.len(),
            t == texts(verbs@),
            p == texts(parent@),
            ungranted(t, p, 0) == ungranted(t, p, i as int),
        decreases verbs@.len() - i,
    {
        proof {
            assert(t[i as int] == verbs@[i as int]@);
        }
        if !contains_str(parent, verbs[i].as_str()) {
            return Some(i);
        }
        i += 1;
    }
    None
}

fn check_child(
    parent: &LeaseRecord,
    prefixes: &Vec<String>,
    verbs: &Vec<String>,
    expires_at_ms: i64,
) -> (r: Result<(), KernelError>)
    ensures
        (match r {
            Ok(_) => Ok::<(), KernelErrorView>(()),
            Err(e) => Err(e@),
        }) == parent@.admits(texts(prefixes@), texts(verbs@), expires_at_ms),
{
    if parent.revoked {
        return Err(KernelError::MalformedRequest("parent lease revoked".to_owned()));
    }
    if parent.depth >= parent.max_depth {
        return Err(KernelError::MalformedRequest("delegation depth exceeded".to_owned()));
    }
    if expires_at_ms > parent.expires_at_ms {
        return Err(KernelError::MalformedRequest("child expiry exceeds parent expiry".to_owned()));
    }
    if let Some(i) = first_uncovered(prefixes, &parent.path_prefixes) {
        return Err(
            KernelError::MalformedRequest(
                surround("child prefix '", prefixes[i].as_str(), "' not covered by parent"),
            ),
        );
    }
    if let Some(i) = first_ungranted(verbs, &parent.verbs) {
        return Err(
            KernelError::MalformedRequest(
                surround("child verb '", verbs[i].as_str(), "' not granted by parent"),
            ),
        );
    }
    Ok(())
}

fn check_link(record: &LeaseRecord, child: Option<&LeaseRecord>, session: &str, now: i64) -> (r:
    Result<(), DenyReason>)
    ensures
        (match r {
            Ok(_) => Ok::<(), DenyView>(()),
            Err(e) => Err(e@),
        }) == link_check(
            record@,
            match child {
                Some(c) => Some(c@),
                None => None,
            },
            session@,
            now,
        ),
{
    let id = record.id.to_text();
    if record.revoked {
        return Err(DenyReason::lease_revoked(surround("lease ", id.as_str(), " was revoked")));
    }
    if now < record.not_before_ms || now > record.expires_at_ms {
        return Err(
            DenyReason::lease_expired(
                surround("lease ", id.as_str(), " is outside its validity window"),
            ),
        );
    }
    match child {
        Some(c) => {
            let linked = match c.parent {
                Some(p) => p.value == record.id.value,
                None => false,
            };
            if !linked {
                return Err(
                    DenyReason::invalid_envelope(
                        concat("lease chain link broken at ", id.as_str()),
                    ),
                );
            }
            if let Some(i) = first_uncovered(&c.path_prefixes, &record.path_prefixes) {
                let mut t = surround(
                    "child prefix '",
                    c.path_prefixes[i].as_str(),
                    "' exceeds parent lease ",
                );
                t.append(id.as_str());
                return Err(DenyReason::scope_exceeded(t));
            }
            if c.expires_at_ms > record.expires_at_ms {
                return Err(
                    DenyReason::scope_exceeded(
                        concat("child expiry exceeds parent lease ", id.as_str()),
                    ),
                );
            }
            Ok(())
        },
        None => {
            if !crate::text::str_eq(record.subject.as_str(), session) {
                return Err(
                    DenyReason::subject_mismatch(
                        "leaf lease subject does not match session".to_owned(),
                    ),
                );
            }
            Ok(())
        },
    }
}

fn normalized_paths(paths: &Vec<PathResource>) -> (r: Vec<String>)
    ensures
        texts(r@) == views(paths@).map_values(|p: PathResourceView| path_or_empty(p.path)),
{
    let mut out: Vec<String> = Vec::new();
    let mut i: usize = 0;
    while i < paths.len()
        invariant
            i <= paths@.len(),
            out@.len() == i,
            forall|k: int| 0 <= k < i ==> (#[trigger] out@[k])@ == path_or_empty(paths@[k].path@),
        decreases paths@.len() - i,
    {
        match canonical_path(paths[i].path.as_str()) {
            Ok(p) => {
                out.push(p);
            },
            Err(_) => {
                let e = String::new();
                proof {
                    assert(e@ =~= Seq::<char>::empty());
                }
                out.push(e);
            },
        }
        i += 1;
    }
    proof {
        assert(texts(out@) =~= views(paths@).map_values(
            |p: PathResourceView| path_or_empty(p.path),
        ));
    }
    out
}

fn paths_of(env: &ActionEnvelope) -> (r: Vec<String>)
    requires
        ascending_keys(env.arguments@),
    ensures
        texts(r@) == action_paths(env@),
{
    let mut paths = normalized_paths(&env.resources.paths);
    if let Some(Json::Str(arg)) = env.arguments.get("path") {
        if let Ok(canon) = canonical_path(arg.as_str()) {
            if !contains_str(&paths, canon.as_str()) {
                let ghost before = texts(paths@);
                let ghost c = canon@;
                paths.push(canon);
                proof {
                    assert(texts(paths@) =~= before.push(c));
                }
            }
        }
    }
    paths
}

fn wants_read(paths: &Vec<PathResource>) -> (r: bool)
    ensures
        r == asks_to_read(views(paths@)),
{
    let ghost t = views(paths@);
    let mut i: usize = 0;
    while i < paths.len()
        invariant
            i <= paths@.len(),
            t == views(paths@),
            forall|k: int| 0 <= k < i ==> (#[trigger] t[k]).rights != PathRights::Read,
        decreases paths@.len() - i,
    {
        if paths[i].rights == PathRights::Read {
            proof {
                assert(t[i as int].rights == PathRights::Read);
            }
            return true;
        }
        i += 1;
    }
    false
}

fn short_digest(env: &ActionEnvelope) -> (r: String)
    ensures
        r@ == short(
            match env@.digest() {
                Ok(d) => d,
                Err(_) => Seq::empty(),
            },
        ),
{
    let full = match env.digest() {
        Ok(d) => d,
        Err(_) => {
            let e = String::new();
            proof {
                assert(e@ =~= Seq::<char>::empty());
            }
            e
        },
    };
    let c = to_chars(full.as_str());
    if c.len() < 16 {
        full
    } else {
        let s = from_chars(&c, 0, 16);
        proof {
            assert(s@ =~= full@.take(16));
        }
        s
    }
}

/// The model of a judgement.
pub open spec fn judgement(r: Result<PolicyDecision, DenyReason>) -> Result<
    DecisionView,
    DenyView,
> {
    match r {
        Ok(d) => Ok(d@),
        Err(e) => Err(e@),
    }
}

fn apply_policy(env: &ActionEnvelope, leaf: &LeaseRecord, config: &LocalKernelConfig) -> (r: Result<
    PolicyDecision,
    DenyReason,
>)
    requires
        ascending_keys(env.arguments@),
    ensures
        judgement(r) == read_policy(
            env@,
            leaf@,
            texts(config.approvable_roots@),
            config.default_max_output_bytes,
        ),
{
    let read = crate::text::str_eq(env.tool.name.as_str(), "bct.read_file")
        && env.expected_effects.file_read && !env.expected_effects.file_write
        && !env.expected_effects.network_egress && !env.expected_effects.network_ingress
        && !env.expected_effects.process_spawn;
    if !read {
        return Err(
            DenyReason::scope_exceeded(
                surround(
                    "tool '",
                    env.tool.name.as_str(),
                    "' is not covered by the phase-0 read policy",
                ),
            ),
        );
    }
    if !contains_str(&leaf.verbs, "read") {
        return Err(
            DenyReason::scope_exceeded("leaf lease does not grant the read verb".to_owned()),
        );
    }
    let paths = paths_of(env);
    if paths.len() == 0 {
        return Err(DenyReason::invalid_envelope("read action names no path".to_owned()));
    }
    let ghost t = texts(paths@);
    let ghost roots = texts(config.approvable_roots@);
    let mut i: usize = 0;
    while i < paths.len()
        invariant
            i <= paths@.len(),
            paths@.len() > 0,
            is_read(env@),
            leaf@.verbs.contains("read"@),
            t == texts(paths@),
            t == action_paths(env@),
            roots == texts(config.approvable_roots@),
            path_outcome(t, 0, leaf@, roots, env@) == path_outcome(t, i as int, leaf@, roots, env@),
        decreases paths@.len() - i,
    {
        let path = paths[i].as_str();
        proof {
            assert(t[i as int] == path@);
        }
        if !is_covered(&leaf.path_prefixes, path) {
            if is_covered(&config.approvable_roots, path) {
                return Ok(
                    PolicyDecision::pending_approval(
                        concat("apr-", short_digest(env).as_str()),
                        surround(
                            "path '",
                            path,
                            "' is outside the lease; human approval required",
                        ),
                    ),
                );
            }
            return Err(
                DenyReason::scope_exceeded(
                    surround("path '", path, "' is outside the leaf lease scope"),
                ),
            );
        }
        if !wants_read(&env.resources.paths) {
            return Err(
                DenyReason::scope_exceeded(
                    surround("path '", path, "' is not requested with read rights"),
                ),
            );
        }
        i += 1;
    }
    let mut obligations: Vec<Obligation> = Vec::new();
    obligations.push(Obligation::TruncateOutput { max_bytes: config.default_max_output_bytes });
    obligations.push(Obligation::RedactSecrets);
    proof {
        assert(super::decision::obligation_views(obligations@)
            =~= Seq::<ObligationView>::empty().push(
            ObligationView::TruncateOutput { max_bytes: config.default_max_output_bytes },
        ).push(ObligationView::RedactSecrets));
    }
    Ok(PolicyDecision::allow(obligations))
}

impl LocalKernel {
    /// A kernel without leases.
    pub fn new(config: LocalKernelConfig) -> (r: LocalKernel)
        ensures
            r@ == (KernelView {
                roots: texts(config.approvable_roots@),
                max_output: config.default_max_output_bytes,
                leases: Seq::empty(),
                nonces: Seq::empty(),
                events: Seq::empty(),
            }),
            r@.log_verifies(),
    {
        let r = LocalKernel {
            config,
            leases: Vec::new(),
            seen_nonces: Vec::new(),
            audit: AuditLog::new(),
        };
        proof {
            assert(r@.leases =~= Seq::<RecordView>::empty());
            assert(r@.nonces =~= Seq::<Seq<char>>::empty());
        }
        r
    }

    /// The audit log.
    pub fn audit_log(&self) -> (r: &AuditLog)
        ensures
            r@ == self@.events,
    {
        &self.audit
    }

    fn find(&self, id: LeaseId) -> (r: Option<usize>)
        ensures
            match r {
                Some(i) => i < self.leases@.len() && find_lease(self@.leases, id, 0) == Some(
                    self.leases@[i as int]@,
                ) && find_lease(self@.leases, id, 0) == find_lease(self@.leases, id, i as int)
                    && revoked_at(self@.leases, id, 0) == revoked_at(self@.leases, id, i as int)
                    && self.leases@[i as int].id == id,
                None => find_lease(self@.leases, id, 0) is None,
            },
    {
        let mut i: usize = 0;
        while i < self.leases.len()
            invariant
                i <= self.leases@.len(),
                self@.leases.len() == self.leases@.len(),
                find_lease(self@.leases, id, 0) == find_lease(self@.leases, id, i as int),
                revoked_at(self@.leases, id, 0) == revoked_at(self@.leases, id, i as int),
            decreases self.leases@.len() - i,
        {
            proof {
                assert(self@.leases[i as int] == self.leases@[i as int]@);
            }
            if self.leases[i].id.value == id.value {
                return Some(i);
            }
            i += 1;
        }
        None
    }

    fn hold(&mut self, record: LeaseRecord)
        ensures
            final(self)@ == old(self)@.holding(record@),
    {
        let ghost before = self@;
        let ghost r = record@;
        self.leases.insert(0, record);
        proof {
            assert(self@.leases =~= before.leases.insert(0, r));
        }
    }

    /// Issues a root lease.
    pub fn issue_root_lease(
        &mut self,
        subject: String,
        path_prefixes: Vec<String>,
        verbs: Vec<String>,
        expires_at_ms: i64,
    ) -> (r: Result<LeaseId, KernelError>)
        ensures
            r is Ok,
            exists|now: i64|
                final(self)@ == #[trigger] old(self)@.root_issued(
                    r->Ok_0,
                    subject@,
                    texts(path_prefixes@),
                    texts(verbs@),
                    now,
                    expires_at_ms,
                ),
            old(self)@.log_verifies() ==> final(self)@.log_verifies(),
    {
        let id = LeaseId::new();
        let now = now_ms();
        let ghost before = self@;
        let ghost s = subject@;
        let ghost p = texts(path_prefixes@);
        let ghost v = texts(verbs@);
        let r = Ok(
            self.issue_root_lease_as(id, subject, path_prefixes, verbs, now, expires_at_ms),
        );
        proof {
            assert(self@ == before.root_issued(r->Ok_0, s, p, v, now, expires_at_ms));
        }
        r
    }

    /// Issues a root lease with the given identity at the given time.
    pub fn issue_root_lease_as(
        &mut self,
        id: LeaseId,
        subject: String,
        path_prefixes: Vec<String>,
        verbs: Vec<String>,
        now: i64,
        expires_at_ms: i64,
    ) -> (r: LeaseId)
        ensures
            r == id,
            final(self)@ == old(self)@.root_issued(
                id,
                subject@,
                texts(path_prefixes@),
                texts(verbs@),
                now,
                expires_at_ms,
            ),
            old(self)@.log_verifies() ==> final(self)@.log_verifies(),
    {
        self.hold(
            LeaseRecord {
                id,
                subject,
                parent: None,
                path_prefixes,
                verbs,
                not_before_ms: now,
                expires_at_ms,
                revoked: false,
                depth: 0,
                max_depth: 8,
            },
        );
        id
    }

    /// Issues a child lease that narrows its parent in prefixes, verbs, expiry
    /// and depth.
    pub fn issue_child_lease(
        &mut self,
        parent_id: LeaseId,
        subject: String,
        path_prefixes: Vec<String>,
        verbs: Vec<String>,
        expires_at_ms: i64,
    ) -> (r: Result<LeaseId, KernelError>)
        ensures
            exists|id: LeaseId, now: i64| #[trigger]
                old(self)@.child_issued(
                    parent_id,
                    id,
                    subject@,
                    texts(path_prefixes@),
                    texts(verbs@),
                    now,
                    expires_at_ms,
                ) == (final(self)@, lease_outcome(r)),
            old(self)@.log_verifies() ==> final(self)@.log_verifies(),
    {
        let id = LeaseId::new();
        let now = now_ms();
        self.issue_child_lease_as(parent_id, id, subject, path_prefixes, verbs, now, expires_at_ms)
    }

    /// Issues a child lease with the given identity at the given time.
    pub fn issue_child_lease_as(
        &mut self,
        parent_id: LeaseId,
        id: LeaseId,
        subject: String,
        path_prefixes: Vec<String>,
        verbs: Vec<String>,
        now: i64,
        expires_at_ms: i64,
    ) -> (r: Result<LeaseId, KernelError>)
        ensures
            old(self)@.child_issued(
                parent_id,
                id,
                subject@,
                texts(path_prefixes@),
                texts(verbs@),
                now,
                expires_at_ms,
            ) == (final(self)@, lease_outcome(r)),
            old(self)@.log_verifies() ==> final(self)@.log_verifies(),
    {
        match self.find(parent_id) {
            None => Err(
                KernelError::MalformedRequest(
                    concat("unknown parent lease ", parent_id.to_text().as_str()),
                ),
            ),
            Some(i) => {
                if let Err(e) = check_child(
                    &self.leases[i],
                    &path_prefixes,
                    &verbs,
                    expires_at_ms,
                ) {
                    return Err(e);
                }
                let depth: u32 = self.leases[i].depth + 1;
                let max_depth: u32 = self.leases[i].max_depth;
                self.hold(
                    LeaseRecord {
                        id,
                        subject,
                        parent: Some(parent_id),
                        path_prefixes,
                        verbs,
                        not_before_ms: now,
                        expires_at_ms,
                        revoked: false,
                        depth,
                        max_depth,
                    },
                );
                Ok(id)
            },
        }
    }

    /// Revokes a lease.
    pub fn revoke_lease(&mut self, id: LeaseId) -> (r: Result<(), KernelError>)
        ensures
            match r {
                Ok(_) => find_lease(old(self)@.leases, id, 0) is Some && final(self)@
                    == (KernelView {
                    leases: revoked_at(old(self)@.leases, id, 0),
                    ..old(self)@
                }),
                Err(e) => find_lease(old(self)@.leases, id, 0) is None && final(self)@
                    == old(self)@ && e@ == KernelErrorView::MalformedRequest(
                    "unknown lease "@ + id.text(),
                ),
            },
            old(self)@.log_verifies() ==> final(self)@.log_verifies(),
    {
        match self.find(id) {
            None => Err(
                KernelError::MalformedRequest(concat("unknown lease ", id.to_text().as_str())),
            ),
            Some(i) => {
                let ghost before = self@;
                let mut record = self.leases[i].clone();
                record.revoked = true;
                let ghost rv = record@;
                proof {
                    assert(before.leases[i as int] == self.leases@[i as int]@);
                    assert(rv == (RecordView { revoked: true, ..before.leases[i as int] }));
                }
                self.leases.set(i, record);
                proof {
                    assert(self@.leases =~= before.leases.update(i as int, rv));
                }
                Ok(())
            },
        }
    }

    /// Records an event and gives its number.
    pub fn audit(
        &mut self,
        id: u128,
        timestamp_ms: i64,
        actor: AuditActor,
        kind: AuditEventKind,
        session_id: &str,
        action_digest: &str,
        decision: Option<&PolicyDecision>,
        detail: String,
    ) -> (r: Option<u64>)
        ensures
            r matches Some(n) && n == old(self)@.events.len(),
            final(self)@ == (KernelView {
                events: old(self)@.events.push(
                    linked(
                        old(self)@.events,
                        event_of(
                            id,
                            timestamp_ms,
                            actor@,
                            kind,
                            session_id@,
                            action_digest@,
                            match decision {
                                Some(d) => Some(d@),
                                None => None,
                            },
                            detail@,
                        ),
                    ),
                ),
                ..old(self)@
            }),
            old(self)@.log_verifies() ==> final(self)@.log_verifies(),
    {
        let event = AuditEvent {
            version: AUDIT_EVENT_VERSION,
            event_id: id,
            sequence: 0,
            timestamp_ms,
            actor,
            kind,
            session_id: session_id.to_owned(),
            action_digest: action_digest.to_owned(),
            decision: match decision {
                Some(d) => Some(d.summary().to_owned()),
                None => None,
            },
            detail,
            prev_hash: "".to_owned(),
            hash: "".to_owned(),
        };
        let ghost before = self.audit@;
        let ghost added = event@;
        match self.audit.append(event) {
            Ok(n) => {
                proof {
                    if chain_result(before) is Ok {
                        append_keeps_the_chain(before, added);
                    }
                }
                Some(n)
            },
            Err(_) => None,
        }
    }

    fn resolve_chain(&self, envelope: &ActionEnvelope, now: i64) -> (r: Result<
        LeaseRecord,
        DenyReason,
    >)
        ensures
            (match r {
                Ok(l) => Ok::<RecordView, DenyView>(l@),
                Err(e) => Err(e@),
            }) == resolved(
                self@.leases,
                envelope@.lease_chain,
                envelope@.session_id,
                now,
            ),
    {
        let chain = &envelope.lease_chain;
        if chain.len() == 0 {
            return Err(DenyReason::no_lease("envelope carries no lease chain".to_owned()));
        }
        let ghost ls = self@.leases;
        let ghost session = envelope@.session_id;
        let mut previous: Option<usize> = None;
        let ghost mut child: Option<RecordView> = None;
        let mut i: usize = 0;
        while i < chain.len()
            invariant
                i <= chain@.len(),
                chain@.len() > 0,
                chain@ == envelope@.lease_chain,
                ls == self@.leases,
                session == envelope@.session_id,
                i > 0 ==> previous is Some,
                match previous {
                    Some(k) => k < self.leases@.len() && child == Some(self.leases@[k as int]@),
                    None => child is None,
                },
                i > 0 ==> find_lease(ls, chain@[0], 0) is Some,
                walk_chain(ls, chain@, session, now, 0, None) == walk_chain(
                    ls,
                    chain@,
                    session,
                    now,
                    i as int,
                    child,
                ),
            decreases chain@.len() - i,
        {
            let id = chain[i];
            match self.find(id) {
                None => {
                    return Err(
                        DenyReason::unknown_lease(
                            surround("lease ", id.to_text().as_str(), " is not known to the kernel"),
                        ),
                    );
                },
                Some(k) => {
                    let before: Option<&LeaseRecord> = match previous {
                        Some(p) => Some(&self.leases[p]),
                        None => None,
                    };
                    if let Err(d) = check_link(
                        &self.leases[k],
                        before,
                        envelope.session_id.as_str(),
                        now,
                    ) {
                        return Err(d);
                    }
                    previous = Some(k);
                    proof {
                        child = Some(self.leases@[k as int]@);
                    }
                },
            }
            i += 1;
        }
        let last: usize = match previous {
            Some(p) => p,
            None => 0,
        };
        if self.leases[last].parent.is_some() {
            return Err(
                DenyReason::invalid_envelope(
                    "lease chain does not terminate at a root lease".to_owned(),
                ),
            );
        }
        match self.find(chain[0]) {
            Some(k) => Ok(self.leases[k].clone()),
            None => Err(DenyReason::no_lease("envelope carries no lease chain".to_owned())),
        }
    }

    fn evaluate_inner(&mut self, envelope: &ActionEnvelope, readings: Readings) -> (r: Result<
        PolicyDecision,
        DenyReason,
    >)
        requires
            ascending_keys(envelope.arguments@),
        ensures
            (final(self)@.nonces, judgement(r)) == old(self)@.judge(envelope@, readings),
            final(self)@ == (KernelView { nonces: final(self)@.nonces, ..old(self)@ }),
    {
        if let Err(e) = envelope.validate() {
            return Err(DenyReason::invalid_envelope(e.message()));
        }
        if contains_str(&self.seen_nonces, envelope.nonce.as_str()) {
            return Err(DenyReason::replay_detected("envelope nonce was already used".to_owned()));
        }
        let ghost before = self@;
        self.seen_nonces.push(envelope.nonce.clone());
        proof {
            assert(self@.nonces =~= before.nonces.push(envelope@.nonce));
        }
        if envelope.expires_at_ms <= readings.expiry_at {
            return Err(DenyReason::expired_action("envelope expired".to_owned()));
        }
        match self.resolve_chain(envelope, readings.chain_at) {
            Err(d) => Err(d),
            Ok(leaf) => apply_policy(envelope, &leaf, &self.config),
        }
    }

    /// Evaluates an action, with what the clock and the identifier source gave,
    /// and gives the number of the event that records the verdict.
    pub fn evaluate_at(&mut self, envelope: &ActionEnvelope, readings: Readings) -> (r: Result<
        (PolicyDecision, u64),
        KernelError,
    >)
        requires
            ascending_keys(envelope.arguments@),
        ensures
            r matches Ok(v) && v.0@ == old(self)@.decide(envelope@, readings) && v.1
                == old(self)@.events.len() + 1,
            final(self)@ == old(self)@.evaluated(envelope@, readings),
            old(self)@.log_verifies() ==> final(self)@.log_verifies(),
    {
        let digest = match envelope.digest() {
            Ok(d) => d,
            Err(_) => "none".to_owned(),
        };
        let _ = self.audit(
            readings.proposed_id,
            readings.proposed_at,
            AuditActor::Session { session_id: envelope.session_id.clone() },
            AuditEventKind::ActionProposed,
            envelope.session_id.as_str(),
            digest.as_str(),
            None,
            concat("tool ", envelope.tool.name.as_str()),
        );
        let decision = match self.evaluate_inner(envelope, readings) {
            Ok(d) => d,
            Err(reason) => PolicyDecision::deny(reason),
        };
        let kind = match &decision.outcome {
            DecisionOutcome::Allow { .. } => AuditEventKind::PolicyAllowed,
            DecisionOutcome::Deny { .. } => AuditEventKind::PolicyDenied,
            DecisionOutcome::PendingApproval { .. } => AuditEventKind::ApprovalRequested,
        };
        let detail = match &decision.outcome {
            DecisionOutcome::Allow { .. } => "within lease scope".to_owned(),
            DecisionOutcome::Deny { reason } => surround(
                reason.code.as_str(),
                ": ",
                reason.detail.as_str(),
            ),
            DecisionOutcome::PendingApproval { approval_id, reason } => surround(
                approval_id.as_str(),
                ": ",
                reason.as_str(),
            ),
        };
        match self.audit(
            readings.verdict_id,
            readings.verdict_at,
            AuditActor::Session { session_id: envelope.session_id.clone() },
            kind,
            envelope.session_id.as_str(),
            digest.as_str(),
            Some(&decision),
            detail,
        ) {
            Some(sequence) => Ok((decision, sequence)),
            None => Err(KernelError::Internal("audit log unavailable".to_owned())),
        }
    }

    /// Evaluates an action and gives the number of the event that records the
    /// verdict.
    pub fn evaluate_with_verdict_sequence(&mut self, envelope: &ActionEnvelope) -> (r: Result<
        (PolicyDecision, u64),
        KernelError,
    >)
        requires
            ascending_keys(envelope.arguments@),
        ensures
            r matches Ok(v) && v.1 == old(self)@.events.len() + 1 && exists|readings: Readings|
                v.0@ == old(self)@.decide(envelope@, readings) && final(self)@ == #[trigger] old(
                    self,
                )@.evaluated(envelope@, readings),
            old(self)@.log_verifies() ==> final(self)@.log_verifies(),
            old(self)@.log_verifies() ==> final(self)@.log_verifies(),
    {
        let readings = Readings::take();
        self.evaluate_at(envelope, readings)
    }
}

impl KernelView {
    /// The kernel after a root lease was issued.
    pub open spec fn root_issued(
        self,
        id: LeaseId,
        subject: Seq<char>,
        prefixes: Seq<Seq<char>>,
        verbs: Seq<Seq<char>>,
        now: i64,
        expires_at_ms: i64,
    ) -> KernelView {
        self.holding(root_record(id, subject, prefixes, verbs, now, expires_at_ms))
    }

    /// The kernel after a child lease was asked for, and the answer.
    pub open spec fn child_issued(
        self,
        parent_id: LeaseId,
        id: LeaseId,
        subject: Seq<char>,
        prefixes: Seq<Seq<char>>,
        verbs: Seq<Seq<char>>,
        now: i64,
        expires_at_ms: i64,
    ) -> (KernelView, Result<LeaseId, KernelErrorView>) {
        match find_lease(self.leases, parent_id, 0) {
            None => (
                self,
                Err(
                    KernelErrorView::MalformedRequest(
                        "unknown parent lease "@ + parent_id.text(),
                    ),
                ),
            ),
            Some(parent) => match parent.admits(prefixes, verbs, expires_at_ms) {
                Err(e) => (self, Err(e)),
                Ok(_) => (
                    self.holding(
                        child_record(
                            parent,
                            parent_id,
                            id,
                            subject,
                            prefixes,
                            verbs,
                            now,
                            expires_at_ms,
                        ),
                    ),
                    Ok(id),
                ),
            },
        }
    }
}

impl Kernel for LocalKernel {
    fn evaluate(&mut self, envelope: &ActionEnvelope) -> (r: Result<PolicyDecision, KernelError>)
        ensures
            r matches Ok(d) && exists|readings: Readings|
                d@ == old(self)@.decide(envelope@, readings) && final(self)@ == #[trigger] old(
                    self,
                )@.evaluated(envelope@, readings),
    {
        match self.evaluate_with_verdict_sequence(envelope) {
            Ok((d, _)) => Ok(d),
            Err(e) => Err(e),
        }
    }
}

/// A prefix that covers a prefix of a path covers the path.
pub proof fn coverage_is_transitive(a: Seq<char>, b: Seq<char>, c: Seq<char>)
    requires
        prefix_covers(a, b),
        prefix_covers(b, c),
    ensures
        prefix_covers(a, c),
{
    reveal_strlit("/");
    assert("/"@ =~= seq!['/']);
    if a == "/"@ {
        if b != "/"@ && b != c {
            assert(c.subrange(0, b.len() as int + 1) == b.push('/'));
            assert(c[0] == c.subrange(0, b.len() as int + 1)[0]);
            assert(b.push('/')[0] == b[0]);
        }
    } else if b == a {
    } else if b == "/"@ {
        assert(b.subrange(0, a.len() as int + 1) == a.push('/'));
        assert(a.len() == 0);
        assert(c.subrange(0, 1) =~= a.push('/'));
    } else if b != c {
        assert(b.subrange(0, a.len() as int + 1) == a.push('/'));
        assert(c.subrange(0, b.len() as int + 1) == b.push('/'));
        assert forall|i: int| 0 <= i < a.len() + 1 implies c[i] == a.push('/')[i] by {
            assert(c[i] == c.subrange(0, b.len() as int + 1)[i]);
            assert(b.push('/')[i] == b[i]);
            assert(b[i] == b.subrange(0, a.len() as int + 1)[i]);
        }
        assert(c.subrange(0, a.len() as int + 1) =~= a.push('/'));
    }
}

proof fn narrowed_is_covered(child: Seq<Seq<char>>, parent: Seq<Seq<char>>, path: Seq<char>, i: int)
    requires
        0 <= i <= child.len(),
        uncovered(child, parent, i) is None,
        exists|k: int| i <= k < child.len() && prefix_covers(#[trigger] child[k], path),
    ensures
        covered(parent, path),
    decreases child.len() - i,
{
    let k = choose|k: int| i <= k < child.len() && prefix_covers(#[trigger] child[k], path);
    if k == i {
        let j = choose|j: int| 0 <= j < parent.len() && prefix_covers(#[trigger] parent[j], child[i]);
        coverage_is_transitive(parent[j], child[i], path);
        assert(prefix_covers(parent[j], path));
    } else {
        assert(prefix_covers(child[k], path));
        narrowed_is_covered(child, parent, path, i + 1);
    }
}

/// What holds of every lease of a chain that was walked to its end.
proof fn walked(
    leases: Seq<RecordView>,
    chain: Seq<LeaseId>,
    session: Seq<char>,
    now: i64,
    i: int,
    child: Option<RecordView>,
    path: Seq<char>,
    k: int,
)
    requires
        0 <= i <= k < chain.len(),
        walk_chain(leases, chain, session, now, i, child) is Ok,
    ensures
        find_lease(leases, chain[k], 0) matches Some(l) && !l.revoked && l.not_before_ms <= now
            && now <= l.expires_at_ms && (child matches Some(c) && covered(c.path_prefixes, path)
            ==> covered(l.path_prefixes, path)) && (child is None && covered(
            find_lease(leases, chain[i], 0)->0.path_prefixes,
            path,
        ) ==> covered(l.path_prefixes, path)),
    decreases chain.len() - i,
{
    let record = find_lease(leases, chain[i], 0)->0;
    if let Some(c) = child {
        if covered(c.path_prefixes, path) {
            narrowed_is_covered(c.path_prefixes, record.path_prefixes, path, 0);
        }
    }
    if k > i {
        walked(leases, chain, session, now, i + 1, Some(record), path, k);
    }
}

proof fn allowed_paths_covered(
    paths: Seq<Seq<char>>,
    i: int,
    leaf: RecordView,
    roots: Seq<Seq<char>>,
    env: EnvelopeView,
    k: int,
)
    requires
        0 <= i <= k < paths.len(),
        path_outcome(paths, i, leaf, roots, env) is None,
    ensures
        covered(leaf.path_prefixes, paths[k]),
    decreases paths.len() - i,
{
    if i < k {
        allowed_paths_covered(paths, i + 1, leaf, roots, env, k);
    }
}

proof fn outcome_is_never_allow(
    paths: Seq<Seq<char>>,
    i: int,
    leaf: RecordView,
    roots: Seq<Seq<char>>,
    env: EnvelopeView,
)
    ensures
        path_outcome(paths, i, leaf, roots, env) matches Some(Ok(d)) ==> d.outcome is Pending,
    decreases paths.len() - i,
{
    if 0 <= i < paths.len() {
        outcome_is_never_allow(paths, i + 1, leaf, roots, env);
    }
}

/// Where an action is allowed, every lease of its chain is known, not revoked
/// and within its validity, and covers every path that the action touches.
pub proof fn allowed_actions_are_within_every_lease(
    kernel: KernelView,
    env: EnvelopeView,
    r: Readings,
    k: int,
    p: int,
)
    requires
        kernel.decide(env, r).outcome is Allow,
        0 <= k < env.lease_chain.len(),
        0 <= p < action_paths(env).len(),
    ensures
        find_lease(kernel.leases, env.lease_chain[k], 0) matches Some(l) && !l.revoked
            && l.not_before_ms <= r.chain_at && r.chain_at <= l.expires_at_ms && covered(
            l.path_prefixes,
            action_paths(env)[p],
        ),
{
    let leaf = resolved(kernel.leases, env.lease_chain, env.session_id, r.chain_at)->Ok_0;
    let paths = action_paths(env);
    outcome_is_never_allow(paths, 0, leaf, kernel.roots, env);
    allowed_paths_covered(paths, 0, leaf, kernel.roots, env, p);
    walked(
        kernel.leases,
        env.lease_chain,
        env.session_id,
        r.chain_at,
        0,
        None,
        paths[p],
        k,
    );
}

/// A nonce is used once: a well-formed envelope that was evaluated is denied as
/// a replay when it is evaluated again.
pub proof fn replay_is_denied(kernel: KernelView, env: EnvelopeView, first: Readings, second: Readings)
    requires
        env.check() is Ok,
    ensures
        kernel.evaluated(env, first).decide(env, second) == decided(
            OutcomeView::Deny(deny("replay_detected"@, "envelope nonce was already used"@)),
        ),
{
    let n = kernel.nonces;
    if !n.contains(env.nonce) {
        assert(n.push(env.nonce)[n.len() as int] == env.nonce);
        assert(n.push(env.nonce).contains(env.nonce));
    }
}

/// An evaluation keeps the audit chain, and adds the proposal and the verdict
/// to it.
pub proof fn evaluation_keeps_the_audit_chain(kernel: KernelView, env: EnvelopeView, r: Readings)
    requires
        kernel.log_verifies(),
        kernel.events.len() < u64::MAX,
    ensures
        kernel.evaluated(env, r).log_verifies(),
        kernel.evaluated(env, r).events.len() == kernel.events.len() + 2,
        kernel.evaluated(env, r).leases == kernel.leases,
{
    let after = kernel.evaluated(env, r).events;
    let proposed = after.drop_last();
    let digest = match env.digest() {
        Ok(d) => d,
        Err(_) => "none"@,
    };
    let actor = ActorView::Session(env.session_id);
    let e1 = event_of(
        r.proposed_id,
        r.proposed_at,
        actor,
        AuditEventKind::ActionProposed,
        env.session_id,
        digest,
        None,
        "tool "@ + env.tool_name,
    );
    append_keeps_the_chain(kernel.events, e1);
    let mid = kernel.events.push(linked(kernel.events, e1));
    let d = kernel.decide(env, r);
    append_keeps_the_chain(
        mid,
        event_of(
            r.verdict_id,
            r.verdict_at,
            actor,
            verdict_kind(d),
            env.session_id,
            digest,
            Some(d),
            verdict_detail(d),
        ),
    );
}

proof fn all_covered(prefixes: Seq<Seq<char>>, parent: Seq<Seq<char>>, i: int, k: int)
    requires
        0 <= i <= k < prefixes.len(),
        uncovered(prefixes, parent, i) is None,
    ensures
        covered(parent, prefixes[k]),
    decreases prefixes.len() - i,
{
    if i < k {
        all_covered(prefixes, parent, i + 1, k);
    }
}

/// A child lease that was issued narrows its parent: each of its prefixes is
/// covered, it does not outlive the parent, and it is one level deeper, within
/// the parent's depth limit.
pub proof fn children_narrow_their_parent(
    parent: RecordView,
    prefixes: Seq<Seq<char>>,
    verbs: Seq<Seq<char>>,
    expires_at_ms: i64,
    k: int,
)
    requires
        parent.admits(prefixes, verbs, expires_at_ms) is Ok,
        0 <= k < prefixes.len(),
    ensures
        !parent.revoked,
        covered(parent.path_prefixes, prefixes[k]),
        expires_at_ms <= parent.expires_at_ms,
        parent.depth < parent.max_depth,
{
    all_covered(prefixes, parent.path_prefixes, 0, k);
}

/// An action is allowed only as a plain read through the mediated tool, by an
/// envelope that is in order, whose nonce is new and whose deadline is not past.
/// It presents a chain that leads from a lease of its own session, over each
/// parent, to a root. That lease grants the verb to read, and covers every
/// path that is declared and the one that the arguments name; some path is
/// declared for reading. The output is cut to the kernel's limit and cleared of
/// secrets.
pub proof fn only_leased_reads_are_allowed(kernel: KernelView, env: EnvelopeView, r: Readings)
    requires
        kernel.decide(env, r).outcome is Allow,
    ensures
        env.check() is Ok,
        !kernel.nonces.contains(env.nonce),
        r.expiry_at < env.expires_at_ms,
        env.tool_name == "bct.read_file"@,
        env.effects.file_read && !env.effects.file_write && !env.effects.network_egress
            && !env.effects.network_ingress && !env.effects.process_spawn,
        env.lease_chain.len() > 0,
        find_lease(kernel.leases, env.lease_chain[0], 0) is Some,
        ({
            let leaf = find_lease(kernel.leases, env.lease_chain[0], 0)->0;
            &&& leaf.subject == env.session_id
            &&& leaf.verbs.contains("read"@)
            &&& forall|i: int|
                0 <= i < env.paths.len() && lexical_path((#[trigger] env.paths[i]).path) is Ok
                    ==> exists|j: int|
                    0 <= j < leaf.path_prefixes.len() && prefix_covers(
                        #[trigger] leaf.path_prefixes[j],
                        lexical_path(env.paths[i].path)->Ok_0,
                    )
            &&& lookup(env.arguments, "path"@) matches Some(JsonView::Str(arg)) ==> (lexical_path(
                arg,
            ) is Ok ==> exists|j: int|
                0 <= j < leaf.path_prefixes.len() && prefix_covers(
                    #[trigger] leaf.path_prefixes[j],
                    lexical_path(arg)->Ok_0,
                ))
        }),
        exists|i: int| 0 <= i < env.paths.len() && (#[trigger] env.paths[i]).rights == PathRights::Read,
        forall|k: int|
            0 <= k < env.lease_chain.len() ==> {
                let l = find_lease(kernel.leases, #[trigger] env.lease_chain[k], 0);
                &&& l is Some
                &&& k + 1 < env.lease_chain.len() ==> l->0.parent == Some(env.lease_chain[k + 1])
                &&& k + 1 == env.lease_chain.len() ==> l->0.parent is None
            },
        kernel.decide(env, r).outcome->Allow_0 == Seq::<ObligationView>::empty().push(
            ObligationView::TruncateOutput { max_bytes: kernel.max_output },
        ).push(ObligationView::RedactSecrets),
{
    let leaf = resolved(kernel.leases, env.lease_chain, env.session_id, r.chain_at)->Ok_0;
    let paths = action_paths(env);
    let declared = env.paths.map_values(|p: PathResourceView| path_or_empty(p.path));
    outcome_is_never_allow(paths, 0, leaf, kernel.roots, env);
    assert(path_outcome(paths, 0, leaf, kernel.roots, env) is None);
    assert(asks_to_read(env.paths));
    assert forall|i: int|
        0 <= i < env.paths.len() && lexical_path((#[trigger] env.paths[i]).path) is Ok implies
        exists|j: int|
        0 <= j < leaf.path_prefixes.len() && prefix_covers(
            #[trigger] leaf.path_prefixes[j],
            lexical_path(env.paths[i].path)->Ok_0,
        ) by {
        assert(declared[i] == lexical_path(env.paths[i].path)->Ok_0);
        assert(paths[i] == declared[i]);
        allowed_paths_covered(paths, 0, leaf, kernel.roots, env, i);
        assert(covered(leaf.path_prefixes, paths[i]));
    }
    if let Some(JsonView::Str(arg)) = lookup(env.arguments, "path"@) {
        if lexical_path(arg) is Ok {
            let canon = lexical_path(arg)->Ok_0;
            let i = if declared.contains(canon) {
                choose|i: int| 0 <= i < declared.len() && declared[i] == canon
            } else {
                declared.len() as int
            };
            assert(paths[i] == canon);
            allowed_paths_covered(paths, 0, leaf, kernel.roots, env, i);
            assert(covered(leaf.path_prefixes, canon));
        }
    }
    chain_is_linked(kernel.leases, env.lease_chain, env.session_id, r.chain_at, 0, None);
    let last = walk_chain(kernel.leases, env.lease_chain, env.session_id, r.chain_at, 0, None)->Ok_0;
    assert(last == find_lease(kernel.leases, env.lease_chain.last(), 0));
}

proof fn lease_is_found(leases: Seq<RecordView>, id: LeaseId, i: int)
    requires
        0 <= i,
    ensures
        find_lease(leases, id, i) matches Some(l) ==> l.id == id,
    decreases leases.len() - i,
{
    if i < leases.len() && leases[i].id != id {
        lease_is_found(leases, id, i + 1);
    }
}

proof fn chain_is_linked(
    leases: Seq<RecordView>,
    chain: Seq<LeaseId>,
    session: Seq<char>,
    now: i64,
    i: int,
    child: Option<RecordView>,
)
    requires
        0 <= i <= chain.len(),
        walk_chain(leases, chain, session, now, i, child) is Ok,
    ensures
        i == chain.len() ==> walk_chain(leases, chain, session, now, i, child)->Ok_0 == child,
        i < chain.len() ==> {
            &&& walk_chain(leases, chain, session, now, i, child)->Ok_0 == find_lease(
                leases,
                chain.last(),
                0,
            )
            &&& find_lease(leases, chain[i], 0) is Some
            &&& child matches Some(c) ==> c.parent == Some(chain[i])
            &&& child is None ==> find_lease(leases, chain[i], 0)->0.subject == session
        },
        forall|k: int|
            i <= k < chain.len() ==> {
                let l = find_lease(leases, #[trigger] chain[k], 0);
                l is Some && (k + 1 < chain.len() ==> l->0.parent == Some(chain[k + 1]))
            },
    decreases chain.len() - i,
{
    if i < chain.len() {
        lease_is_found(leases, chain[i], 0);
        let record = find_lease(leases, chain[i], 0)->0;
        chain_is_linked(leases, chain, session, now, i + 1, Some(record));
    }
}

/// Every evaluation is on record, whatever it decides: the proposal with the
/// session and the digest of the action, and then a verdict whose kind is that
/// of the decision. An envelope in order uses its nonce up, and no nonce that
/// was used is forgotten.
pub proof fn evaluations_are_on_record(kernel: KernelView, env: EnvelopeView, r: Readings)
    ensures
        ({
            let after = kernel.evaluated(env, r);
            let n = kernel.events.len() as int;
            let outcome = kernel.decide(env, r).outcome;
            &&& after.events.len() == n + 2
            &&& forall|i: int| 0 <= i < n ==> #[trigger] after.events[i] == kernel.events[i]
            &&& after.events[n].kind == AuditEventKind::ActionProposed
            &&& after.events[n].session_id == env.session_id
            &&& after.events[n].actor == ActorView::Session(env.session_id)
            &&& after.events[n].timestamp_ms == r.proposed_at
            &&& after.events[n].decision is None
            &&& after.events[n + 1].session_id == env.session_id
            &&& after.events[n + 1].timestamp_ms == r.verdict_at
            &&& after.events[n + 1].decision == Some(kernel.decide(env, r).summary())
            &&& env.digest() matches Ok(d) ==> after.events[n].action_digest == d
                && after.events[n + 1].action_digest == d
            &&& outcome is Allow <==> after.events[n + 1].kind == AuditEventKind::PolicyAllowed
            &&& outcome is Deny <==> after.events[n + 1].kind == AuditEventKind::PolicyDenied
            &&& outcome is Pending <==> after.events[n + 1].kind
                == AuditEventKind::ApprovalRequested
            &&& env.check() is Ok ==> after.nonces.contains(env.nonce)
            &&& forall|x: Seq<char>| #[trigger]
                kernel.nonces.contains(x) ==> after.nonces.contains(x)
        }),
{
    let n = kernel.nonces;
    let after = kernel.evaluated(env, r).nonces;
    assert(n.push(env.nonce)[n.len() as int] == env.nonce);
    assert forall|x: Seq<char>| #[trigger] n.contains(x) implies after.contains(x) by {
        let i = choose|i: int| 0 <= i < n.len() && n[i] == x;
        assert(n.push(env.nonce)[i] == x);
        assert(after[i] == x);
    }
}

/// A child lease is admitted exactly if the parent is not revoked and may still
/// delegate, the child does not outlive it, each prefix of the child is covered
/// by one of the parent's, and each verb of the child is one of the parent's.
pub proof fn admitted_children_hold_no_more(
    parent: RecordView,
    prefixes: Seq<Seq<char>>,
    verbs: Seq<Seq<char>>,
    expires_at_ms: i64,
)
    ensures
        parent.admits(prefixes, verbs, expires_at_ms) is Ok <==> {
            &&& !parent.revoked
            &&& parent.depth < parent.max_depth
            &&& expires_at_ms <= parent.expires_at_ms
            &&& forall|k: int|
                0 <= k < prefixes.len() ==> exists|j: int|
                    0 <= j < parent.path_prefixes.len() && prefix_covers(
                        #[trigger] parent.path_prefixes[j],
                        #[trigger] prefixes[k],
                    )
            &&& forall|k: int| 0 <= k < verbs.len() ==> parent.verbs.contains(#[trigger] verbs[k])
        },
{
    uncovered_or_all(prefixes, parent.path_prefixes, 0);
    ungranted_or_all(verbs, parent.verbs, 0);
    if uncovered(prefixes, parent.path_prefixes, 0) is None {
        assert forall|k: int| 0 <= k < prefixes.len() implies exists|j: int|
            0 <= j < parent.path_prefixes.len() && prefix_covers(
                #[trigger] parent.path_prefixes[j],
                #[trigger] prefixes[k],
            ) by {
            assert(covered(parent.path_prefixes, prefixes[k]));
        }
    } else {
        let k = choose|k: int|
            0 <= k < prefixes.len() && !covered(parent.path_prefixes, #[trigger] prefixes[k]);
        assert(!(exists|j: int|
            0 <= j < parent.path_prefixes.len() && prefix_covers(
                #[trigger] parent.path_prefixes[j],
                prefixes[k],
            )));
    }
}

proof fn uncovered_or_all(prefixes: Seq<Seq<char>>, parent: Seq<Seq<char>>, i: int)
    requires
        0 <= i <= prefixes.len(),
    ensures
        uncovered(prefixes, parent, i) is None <==> forall|k: int|
            i <= k < prefixes.len() ==> covered(parent, #[trigger] prefixes[k]),
    decreases prefixes.len() - i,
{
    if i < prefixes.len() {
        uncovered_or_all(prefixes, parent, i + 1);
        if forall|k: int| i <= k < prefixes.len() ==> covered(parent, #[trigger] prefixes[k]) {
            assert(covered(parent, prefixes[i]));
        }
    }
}

proof fn ungranted_or_all(verbs: Seq<Seq<char>>, parent: Seq<Seq<char>>, i: int)
    requires
        0 <= i <= verbs.len(),
    ensures
        ungranted(verbs, parent, i) is None <==> forall|k: int|
            i <= k < verbs.len() ==> parent.contains(#[trigger] verbs[k]),
    decreases verbs.len() - i,
{
    if i < verbs.len() {
        ungranted_or_all(verbs, parent, i + 1);
        if forall|k: int| i <= k < verbs.len() ==> parent.contains(#[trigger] verbs[k]) {
            assert(parent.contains(verbs[i]));
        }
    }
}

/// A revocation revokes the lease that is found under the identity, changes
/// nothing else of it, and leaves every other lease as it is. Without a lease of
/// that identity nothing changes.
pub proof fn revocations_touch_one_lease(leases: Seq<RecordView>, id: LeaseId, other: LeaseId)
    ensures
        ({
            let after = revoked_at(leases, id, 0);
            &&& after.len() == leases.len()
            &&& find_lease(leases, id, 0) is None ==> after == leases
            &&& find_lease(leases, id, 0) matches Some(r) ==> find_lease(after, id, 0) == Some(
                (RecordView { revoked: true, ..r }),
            )
            &&& other != id ==> find_lease(after, other, 0) == find_lease(leases, other, 0)
        }),
{
    revocation_from(leases, id, other, 0);
}

proof fn revocation_from(leases: Seq<RecordView>, id: LeaseId, other: LeaseId, i: int)
    requires
        0 <= i <= leases.len(),
    ensures
        ({
            let after = revoked_at(leases, id, i);
            &&& after.len() == leases.len()
            &&& forall|k: int| 0 <= k < i ==> after[k] == leases[k]
            &&& find_lease(leases, id, i) is None ==> after == leases
            &&& find_lease(leases, id, i) matches Some(r) ==> find_lease(after, id, i) == Some(
                (RecordView { revoked: true, ..r }),
            )
            &&& other != id ==> find_lease(after, other, i) == find_lease(leases, other, i)
        }),
    decreases leases.len() - i,
{
    if i < leases.len() {
        let after = revoked_at(leases, id, i);
        if leases[i].id == id {
            if other != id {
                found_beyond(leases, after, other, i + 1);
            }
        } else {
            revocation_from(leases, id, other, i + 1);
            assert(after[i] == leases[i]);
        }
    }
}

proof fn found_beyond(a: Seq<RecordView>, b: Seq<RecordView>, id: LeaseId, i: int)
    requires
        a.len() == b.len(),
        0 <= i,
        forall|k: int| i <= k < a.len() ==> #[trigger] a[k] == b[k],
    ensures
        find_lease(a, id, i) == find_lease(b, id, i),
    decreases a.len() - i,
{
    if i < a.len() {
        assert(a[i] == b[i]);
        found_beyond(a, b, id, i + 1);
    }
}

/// A link of a presented chain is accepted exactly if the lease was not revoked
/// and is within its time, and, behind a child, is the one that the child names
/// as its parent, covers all that the child covers and expires no earlier; the
/// first is of the session itself.
pub proof fn accepted_links_meet_every_check(
    record: RecordView,
    child: Option<RecordView>,
    session: Seq<char>,
    now: i64,
)
    ensures
        link_check(record, child, session, now) is Ok <==> {
            &&& !record.revoked
            &&& record.not_before_ms <= now <= record.expires_at_ms
            &&& child is None ==> record.subject == session
            &&& child matches Some(c) ==> {
                &&& c.parent == Some(record.id)
                &&& c.expires_at_ms <= record.expires_at_ms
                &&& forall|i: int|
                    0 <= i < c.path_prefixes.len() ==> exists|j: int|
                        0 <= j < record.path_prefixes.len() && prefix_covers(
                            #[trigger] record.path_prefixes[j],
                            #[trigger] c.path_prefixes[i],
                        )
            }
        },
{
    if let Some(c) = child {
        if uncovered(c.path_prefixes, record.path_prefixes, 0) is None {
            assert forall|i: int| 0 <= i < c.path_prefixes.len() implies exists|j: int|
                0 <= j < record.path_prefixes.len() && prefix_covers(
                    #[trigger] record.path_prefixes[j],
                    #[trigger] c.path_prefixes[i],
                ) by {
                all_covered(c.path_prefixes, record.path_prefixes, 0, i);
                assert(covered(record.path_prefixes, c.path_prefixes[i]));
            }
        } else {
            let k = one_uncovered(c.path_prefixes, record.path_prefixes, 0);
            assert(!covered(record.path_prefixes, c.path_prefixes[k]));
        }
    }
}

proof fn one_uncovered(child: Seq<Seq<char>>, parent: Seq<Seq<char>>, i: int) -> (k: int)
    requires
        uncovered(child, parent, i) is Some,
        0 <= i,
    ensures
        i <= k < child.len(),
        !covered(parent, child[k]),
    decreases child.len() - i,
{
    if covered(parent, child[i]) {
        one_uncovered(child, parent, i + 1)
    } else {
        i
    }
}

} // verus!
