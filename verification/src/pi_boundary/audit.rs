//! The audit log: an append-only list of events, each with a hash over itself
//! and over the hash of the event before it.

use super::{canonical_json, text_result, unit_result, BoundaryError, BoundaryErrorView};
use crate::digest::{sha256_hex_str, text_digest};
use crate::ids::{uuid_text, uuid_text_is_injective, uuid_to_text};
use crate::json::{
    canonical, canonical_iff_integral, integral, integral_none, integral_push, no_fields,
    no_members, object, put, string, Json, JsonView,
};
use crate::text::{concat, decimal, str_eq, surround, u64_text};
use vstd::prelude::*;

verus! {

/// Who caused an event.
#[derive(Clone, Debug, PartialEq, Eq)]
pub enum AuditActor {
    Session { session_id: String },
    Kernel,
    Human { subject: String },
}

/// The model of an `AuditActor`.
pub enum ActorView {
    Session(Seq<char>),
    Kernel,
    Human(Seq<char>),
}

impl View for AuditActor {
    type V = ActorView;

    open spec fn view(&self) -> ActorView {
        match *self {
            AuditActor::Session { session_id } => ActorView::Session(session_id@),
            AuditActor::Kernel => ActorView::Kernel,
            AuditActor::Human { subject } => ActorView::Human(subject@),
        }
    }
}

impl ActorView {
    /// The JSON value.
    pub open spec fn json(self) -> JsonView {
        JsonView::Object(
            match self {
                ActorView::Session(s) => no_fields().push(
                    ("actor"@, JsonView::Str("session"@)),
                ).push(("session_id"@, JsonView::Str(s))),
                ActorView::Kernel => no_fields().push(("actor"@, JsonView::Str("kernel"@))),
                ActorView::Human(s) => no_fields().push(("actor"@, JsonView::Str("human"@))).push(
                    ("subject"@, JsonView::Str(s)),
                ),
            },
        )
    }
}

/// What an event records.
#[derive(Clone, Copy, Debug, PartialEq, Eq, Structural)]
pub enum AuditEventKind {
    ActionProposed,
    PolicyAllowed,
    PolicyDenied,
    ApprovalRequested,
    TransportRejected,
    ToolExecuted,
}

impl AuditEventKind {
    /// The name on the wire.
    pub open spec fn name(self) -> Seq<char> {
        match self {
            AuditEventKind::ActionProposed => "action_proposed"@,
            AuditEventKind::PolicyAllowed => "policy_allowed"@,
            AuditEventKind::PolicyDenied => "policy_denied"@,
            AuditEventKind::ApprovalRequested => "approval_requested"@,
            AuditEventKind::TransportRejected => "transport_rejected"@,
            AuditEventKind::ToolExecuted => "tool_executed"@,
        }
    }

    /// The name on the wire.
    pub fn as_str(self) -> (r: &'static str)
        ensures
            r@ == self.name(),
    {
        match self {
            AuditEventKind::ActionProposed => "action_proposed",
            AuditEventKind::PolicyAllowed => "policy_allowed",
            AuditEventKind::PolicyDenied => "policy_denied",
            AuditEventKind::ApprovalRequested => "approval_requested",
            AuditEventKind::TransportRejected => "transport_rejected",
            AuditEventKind::ToolExecuted => "tool_executed",
        }
    }
}

/// One audit event. It holds digests and decisions, never arguments.
#[derive(Clone, Debug, PartialEq, Eq)]
pub struct AuditEvent {
    pub version: u32,
    pub event_id: u128,
    pub sequence: u64,
    pub timestamp_ms: i64,
    pub actor: AuditActor,
    pub kind: AuditEventKind,
    pub session_id: String,
    /// The digest of the action, or `none`.
    pub action_digest: String,
    /// One word for the decision, where the event records one.
    pub decision: Option<String>,
    pub detail: String,
    pub prev_hash: String,
    pub hash: String,
}

/// The model of an `AuditEvent`.
pub struct EventView {
    pub version: u32,
    pub event_id: u128,
    pub sequence: u64,
    pub timestamp_ms: i64,
    pub actor: ActorView,
    pub kind: AuditEventKind,
    pub session_id: Seq<char>,
    pub action_digest: Seq<char>,
    pub decision: Option<Seq<char>>,
    pub detail: Seq<char>,
    pub prev_hash: Seq<char>,
    pub hash: Seq<char>,
}

impl View for AuditEvent {
    type V = EventView;

    open spec fn view(&self) -> EventView {
        EventView {
            version: self.version,
            event_id: self.event_id,
            sequence: self.sequence,
            timestamp_ms: self.timestamp_ms,
            actor: self.actor@,
            kind: self.kind,
            session_id: self.session_id@,
            action_digest: self.action_digest@,
            decision: match self.decision {
                Some(d) => Some(d@),
                None => None,
            },
            detail: self.detail@,
            prev_hash: self.prev_hash@,
            hash: self.hash@,
        }
    }
}

impl EventView {
    /// The JSON value of the event, with an empty hash.
    pub open spec fn unsigned(self) -> JsonView {
        let head = no_fields().push(("version"@, JsonView::Int(self.version as int))).push(
            ("event_id"@, JsonView::Str(uuid_text(self.event_id))),
        ).push(("sequence"@, JsonView::Int(self.sequence as int))).push(
            ("timestamp_ms"@, JsonView::Int(self.timestamp_ms as int)),
        ).push(("actor"@, self.actor.json())).push(("kind"@, JsonView::Str(self.kind.name()))).push(
            ("session_id"@, JsonView::Str(self.session_id)),
        ).push(("action_digest"@, JsonView::Str(self.action_digest)));
        let middle = match self.decision {
            None => head,
            Some(d) => head.push(("decision"@, JsonView::Str(d))),
        };
        JsonView::Object(
            middle.push(("detail"@, JsonView::Str(self.detail))).push(
                ("prev_hash"@, JsonView::Str(self.prev_hash)),
            ).push(("hash"@, JsonView::Str(""@))),
        )
    }

    /// The hash over the event and the hash before it.
    pub open spec fn chained(self, prev_hash: Seq<char>) -> Seq<char> {
        text_digest(canonical(self.unsigned())->Ok_0 + prev_hash)
    }
}

/// Every event has a canonical text.
pub proof fn events_are_canonical(e: EventView)
    ensures
        canonical(e.unsigned()) is Ok,
{
    broadcast use {integral_none, integral_push};

    assert(integral(e.actor.json()));
    assert(integral(e.unsigned()));
    canonical_iff_integral(e.unsigned());
}

fn actor_json(a: &AuditActor) -> (r: Json)
    ensures
        r@ == a@.json(),
{
    let mut m = no_members();
    match a {
        AuditActor::Session { session_id } => {
            put(&mut m, "actor", string("session"));
            put(&mut m, "session_id", string(session_id.as_str()));
        },
        AuditActor::Kernel => {
            put(&mut m, "actor", string("kernel"));
        },
        AuditActor::Human { subject } => {
            put(&mut m, "actor", string("human"));
            put(&mut m, "subject", string(subject.as_str()));
        },
    }
    object(m)
}

impl AuditEvent {
    fn unsigned_value(&self) -> (r: Json)
        ensures
            r@ == self@.unsigned(),
    {
        let mut m = no_members();
        put(&mut m, "version", Json::UInt(self.version as u64));
        put(&mut m, "event_id", Json::Str(uuid_to_text(self.event_id)));
        put(&mut m, "sequence", Json::UInt(self.sequence));
        put(&mut m, "timestamp_ms", Json::Int(self.timestamp_ms));
        put(&mut m, "actor", actor_json(&self.actor));
        put(&mut m, "kind", string(self.kind.as_str()));
        put(&mut m, "session_id", string(self.session_id.as_str()));
        put(&mut m, "action_digest", string(self.action_digest.as_str()));
        if let Some(d) = &self.decision {
            put(&mut m, "decision", string(d.as_str()));
        }
        put(&mut m, "detail", string(self.detail.as_str()));
        put(&mut m, "prev_hash", string(self.prev_hash.as_str()));
        put(&mut m, "hash", string(""));
        object(m)
    }

    /// The hash of this event behind an event with hash `prev_hash`.
    pub fn compute_hash(&self, prev_hash: &str) -> (r: Result<String, BoundaryError>)
        ensures
            text_result(r) == Ok::<Seq<char>, BoundaryErrorView>(self@.chained(prev_hash@)),
    {
        proof {
            events_are_canonical(self@);
        }
        match canonical_json(&self.unsigned_value()) {
            Ok(t) => Ok(sha256_hex_str(concat(t.as_str(), prev_hash).as_str())),
            Err(e) => Err(e),
        }
    }
}

/// The hash that stands before the first event: 64 zeros.
pub open spec fn genesis() -> Seq<char> {
    "0000000000000000000000000000000000000000000000000000000000000000"@
}

/// The models of a list of events.
pub open spec fn event_views(v: Seq<AuditEvent>) -> Seq<EventView> {
    v.map_values(|e: AuditEvent| e@)
}

/// The hash behind which the next event goes.
pub open spec fn head_hash(events: Seq<EventView>) -> Seq<char> {
    if events.len() == 0 {
        genesis()
    } else {
        events.last().hash
    }
}

/// The event as it is stored behind `events`: numbered, linked and hashed.
pub open spec fn linked(events: Seq<EventView>, event: EventView) -> EventView {
    let placed = EventView {
        sequence: events.len() as u64,
        prev_hash: head_hash(events),
        ..event
    };
    EventView { hash: placed.chained(head_hash(events)), ..placed }
}

/// The first break of the chain from position `i` on, where the event before
/// it has the hash `prev`.
pub open spec fn chain_check(events: Seq<EventView>, i: int, prev: Seq<char>) -> Result<
    (),
    BoundaryErrorView,
>
    decreases events.len() - i,
{
    if i < 0 || i >= events.len() {
        Ok(())
    } else if events[i].sequence != i {
        Err(
            BoundaryErrorView::AuditChainBroken(
                "sequence gap at index "@ + decimal(i as nat) + ": got "@ + decimal(
                    events[i].sequence as nat,
                ),
            ),
        )
    } else if events[i].prev_hash != prev {
        Err(
            BoundaryErrorView::AuditChainBroken(
                "prev_hash mismatch at sequence "@ + decimal(events[i].sequence as nat),
            ),
        )
    } else if events[i].chained(events[i].prev_hash) != events[i].hash {
        Err(
            BoundaryErrorView::AuditChainBroken(
                "hash mismatch at sequence "@ + decimal(events[i].sequence as nat),
            ),
        )
    } else {
        chain_check(events, i + 1, events[i].hash)
    }
}

/// The whole chain holds together.
pub open spec fn chain_result(events: Seq<EventView>) -> Result<(), BoundaryErrorView> {
    chain_check(events, 0, genesis())
}

/// The first event with the given sequence number, from position `i` on.
pub open spec fn event_at(events: Seq<EventView>, sequence: u64, i: int) -> Option<EventView>
    decreases events.len() - i,
{
    if i < 0 || i >= events.len() {
        None
    } else if events[i].sequence == sequence {
        Some(events[i])
    } else {
        event_at(events, sequence, i + 1)
    }
}

impl Clone for AuditLog {
    fn clone(&self) -> (r: AuditLog)
        ensures
            r@ == self@,
    {
        let mut out: Vec<AuditEvent> = Vec::new();
        let mut i: usize = 0;
        while i < self.events.len()
            invariant
                i <= self.events@.len(),
                out@.len() == i,
                forall|k: int| 0 <= k < i ==> (#[trigger] out@[k])@ == self.events@[k]@,
            decreases self.events@.len() - i,
        {
            out.push(copy_event(&self.events[i]));
            i += 1;
        }
        proof {
            assert(event_views(out@) =~= event_views(self.events@));
        }
        AuditLog { events: out }
    }
}

fn copy_actor(a: &AuditActor) -> (r: AuditActor)
    ensures
        r@ == a@,
{
    match a {
        AuditActor::Session { session_id } => AuditActor::Session {
            session_id: session_id.clone(),
        },
        AuditActor::Kernel => AuditActor::Kernel,
        AuditActor::Human { subject } => AuditActor::Human { subject: subject.clone() },
    }
}

fn copy_event(e: &AuditEvent) -> (r: AuditEvent)
    ensures
        r@ == e@,
{
    AuditEvent {
        version: e.version,
        event_id: e.event_id,
        sequence: e.sequence,
        timestamp_ms: e.timestamp_ms,
        actor: copy_actor(&e.actor),
        kind: e.kind,
        session_id: e.session_id.clone(),
        action_digest: e.action_digest.clone(),
        decision: match &e.decision {
            Some(d) => Some(d.clone()),
            None => None,
        },
        detail: e.detail.clone(),
        prev_hash: e.prev_hash.clone(),
        hash: e.hash.clone(),
    }
}

/// An append-only list of chained events.
#[derive(Debug)]
pub struct AuditLog {
    events: Vec<AuditEvent>,
}

impl View for AuditLog {
    type V = Seq<EventView>;

    closed spec fn view(&self) -> Seq<EventView> {
        event_views(self.events@)
    }
}

impl Default for AuditLog {
    fn default() -> (r: AuditLog)
        ensures
            r@ == Seq::<EventView>::empty(),
    {
        AuditLog::new()
    }
}

impl AuditLog {
    /// The empty log.
    pub fn new() -> (r: AuditLog)
        ensures
            r@ == Seq::<EventView>::empty(),
    {
        let r = AuditLog { events: Vec::new() };
        proof {
            assert(r@ =~= Seq::<EventView>::empty());
        }
        r
    }

    /// A log with stored events, which `verify` then checks.
    pub fn from_events(events: Vec<AuditEvent>) -> (r: AuditLog)
        ensures
            r@ == event_views(events@),
    {
        AuditLog { events }
    }

    fn head(&self) -> (r: String)
        ensures
            r@ == head_hash(self@),
    {
        let n: usize = self.events.len();
        if n == 0 {
            "0000000000000000000000000000000000000000000000000000000000000000".to_owned()
        } else {
            self.events[n - 1].hash.clone()
        }
    }

    /// Appends an event with its sequence number, link and hash, and gives the
    /// number.
    pub fn append(&mut self, event: AuditEvent) -> (r: Result<u64, BoundaryError>)
        ensures
            r matches Ok(n) && n == old(self)@.len(),
            final(self)@ == old(self)@.push(linked(old(self)@, event@)),
    {
        let ghost before = self@;
        let ghost given = event@;
        let sequence: u64 = self.events.len() as u64;
        let prev_hash = self.head();
        let mut event = event;
        event.sequence = sequence;
        event.prev_hash = prev_hash.clone();
        proof {
            assert(event@ == (EventView {
                sequence: before.len() as u64,
                prev_hash: head_hash(before),
                ..given
            }));
        }
        match event.compute_hash(prev_hash.as_str()) {
            Ok(h) => {
                event.hash = h;
                proof {
                    assert(event@ == linked(before, given));
                }
                self.events.push(event);
                proof {
                    assert(self@ =~= before.push(linked(before, given)));
                }
                Ok(sequence)
            },
            Err(e) => Err(e),
        }
    }

    /// Checks the whole chain: the numbers are contiguous, every link matches
    /// and every hash is the one that is computed.
    pub fn verify(&self) -> (r: Result<(), BoundaryError>)
        ensures
            unit_result(r) == chain_result(self@),
    {
        let mut expected = "0000000000000000000000000000000000000000000000000000000000000000".to_owned();
        let mut i: usize = 0;
        while i < self.events.len()
            invariant
                i <= self.events@.len(),
                self@.len() == self.events@.len(),
                chain_result(self@) == chain_check(self@, i as int, expected@),
            decreases self.events@.len() - i,
        {
            let event = &self.events[i];
            proof {
                assert(self@[i as int] == event@);
            }
            if event.sequence != i as u64 {
                let mut t = surround(
                    "sequence gap at index ",
                    u64_text(i as u64).as_str(),
                    ": got ",
                );
                t.append(u64_text(event.sequence).as_str());
                return Err(BoundaryError::AuditChainBroken(t));
            }
            if !str_eq(event.prev_hash.as_str(), expected.as_str()) {
                return Err(
                    BoundaryError::AuditChainBroken(
                        concat(
                            "prev_hash mismatch at sequence ",
                            u64_text(event.sequence).as_str(),
                        ),
                    ),
                );
            }
            match event.compute_hash(event.prev_hash.as_str()) {
                Ok(h) => {
                    if !str_eq(h.as_str(), event.hash.as_str()) {
                        return Err(
                            BoundaryError::AuditChainBroken(
                                concat(
                                    "hash mismatch at sequence ",
                                    u64_text(event.sequence).as_str(),
                                ),
                            ),
                        );
                    }
                },
                Err(e) => {
                    return Err(e);
                },
            }
            expected = event.hash.clone();
            i += 1;
        }
        Ok(())
    }

    /// The number of events.
    pub fn len(&self) -> (r: usize)
        ensures
            r == self@.len(),
    {
        self.events.len()
    }

    /// Whether the log holds no event.
    pub fn is_empty(&self) -> (r: bool)
        ensures
            r == (self@.len() == 0),
    {
        self.events.len() == 0
    }

    /// The event with the given number.
    pub fn get(&self, sequence: u64) -> (r: Option<AuditEvent>)
        ensures
            match r {
                Some(e) => event_at(self@, sequence, 0) == Some(e@),
                None => event_at(self@, sequence, 0) is None,
            },
    {
        let mut i: usize = 0;
        while i < self.events.len()
            invariant
                i <= self.events@.len(),
                self@.len() == self.events@.len(),
                event_at(self@, sequence, 0) == event_at(self@, sequence, i as int),
            decreases self.events@.len() - i,
        {
            proof {
                assert(self@[i as int] == self.events@[i as int]@);
            }
            if self.events[i].sequence == sequence {
                return Some(copy_event(&self.events[i]));
            }
            i += 1;
        }
        None
    }

    /// All events in order.
    pub fn events(&self) -> (r: Vec<AuditEvent>)
        ensures
            event_views(r@) == self@,
    {
        self.clone().events
    }
}

proof fn checked_behind(events: Seq<EventView>, e: EventView, i: int, prev: Seq<char>)
    requires
        0 <= i <= events.len(),
        chain_check(events, i, prev) is Ok,
        i == events.len() ==> prev == head_hash(events),
        e.sequence == events.len(),
        e.prev_hash == head_hash(events),
        e.chained(e.prev_hash) == e.hash,
    ensures
        chain_check(events.push(e), i, prev) is Ok,
    decreases events.len() - i,
{
    let all = events.push(e);
    if i < events.len() {
        assert(all[i] == events[i]);
        checked_behind(events, e, i + 1, events[i].hash);
    } else {
        assert(all[i] == e);
        assert(chain_check(all, i + 1, e.hash) is Ok);
    }
}

/// A log that verifies still verifies after an event is appended.
pub proof fn append_keeps_the_chain(events: Seq<EventView>, event: EventView)
    requires
        chain_result(events) is Ok,
        events.len() <= u64::MAX,
    ensures
        chain_result(events.push(linked(events, event))) is Ok,
{
    let e = linked(events, event);
    assert(e.unsigned() == (EventView {
        sequence: events.len() as u64,
        prev_hash: head_hash(events),
        ..event
    }).unsigned());
    checked_behind(events, e, 0, genesis());
}

proof fn every_link_matches(events: Seq<EventView>, i: int, prev: Seq<char>, k: int)
    requires
        0 <= i <= k < events.len(),
        chain_check(events, i, prev) is Ok,
    ensures
        events[k].sequence == k,
        events[k].hash == events[k].chained(events[k].prev_hash),
        events[k].prev_hash == (if k == i {
            prev
        } else {
            events[k - 1].hash
        }),
    decreases events.len() - i,
{
    if i < k {
        every_link_matches(events, i + 1, events[i].hash, k);
    }
}

/// In a log that verifies, every event is numbered by its position, linked to
/// the event before it, and has the hash that is computed from it: an event
/// that was changed without its hash breaks the chain.
pub proof fn verified_events_are_intact(events: Seq<EventView>, k: int)
    requires
        chain_result(events) is Ok,
        0 <= k < events.len(),
    ensures
        events[k].sequence == k,
        events[k].hash == events[k].chained(events[k].prev_hash),
        events[k].prev_hash == (if k == 0 {
            genesis()
        } else {
            events[k - 1].hash
        }),
{
    every_link_matches(events, 0, genesis(), k);
}

/// What is hashed covers every field but the hash: two events with the same
/// hashed value agree in all the others.
pub proof fn hashed_values_tell_events_apart(a: EventView, b: EventView)
    requires
        a.unsigned() == b.unsigned(),
    ensures
        b == (EventView { hash: b.hash, ..a }),
{
    reveal_strlit("session");
    reveal_strlit("kernel");
    reveal_strlit("human");
    reveal_strlit("action_proposed");
    reveal_strlit("policy_allowed");
    reveal_strlit("policy_denied");
    reveal_strlit("approval_requested");
    reveal_strlit("transport_rejected");
    reveal_strlit("tool_executed");
    let x = a.unsigned()->Object_0;
    let y = b.unsigned()->Object_0;
    assert(x.len() == y.len());
    assert(a.decision is Some <==> x.len() == 12);
    assert(b.decision is Some <==> y.len() == 12);
    assert(x[0].1 == y[0].1);
    assert(x[1].1 == y[1].1);
    assert(x[2].1 == y[2].1);
    assert(x[3].1 == y[3].1);
    assert(x[4].1 == y[4].1);
    assert(x[5].1 == y[5].1);
    assert(x[6].1 == y[6].1);
    assert(x[7].1 == y[7].1);
    assert(x[8].1 == y[8].1);
    assert(x[9].1 == y[9].1);
    assert(x[10].1 == y[10].1);
    uuid_text_is_injective(a.event_id, b.event_id);
    let (s, t) = (a.kind.name(), b.kind.name());
    assert(x[5].1 == JsonView::Str(s) && y[5].1 == JsonView::Str(t));
    assert(s.len() == t.len() && s[0] == t[0]);
    assert(x[4].1 == a.actor.json() && y[4].1 == b.actor.json());
    let p = a.actor.json()->Object_0;
    let q = b.actor.json()->Object_0;
    assert(p == q);
    assert(p[0].1 == q[0].1);
    assert(p[0].1->Str_0.len() == q[0].1->Str_0.len());
    assert(p[1].1 == q[1].1);
}

} // verus!
