//! The chain of events and its checkpoints.

use crate::digest::{sha256_hex_str, text_digest};
use crate::json::{
    canonical, canonical_iff_integral, integral, integral_none, integral_push, no_fields,
    no_members, object, put, string, unique_keys, Json, JsonView,
};
use crate::json_laws::{
    canonical_text_tells_values_apart, literals_read_back, members_correspond, same_value,
};
use crate::kernel_audit::{redact_details, redacted};
use crate::keys::{ed25519_public, hex_signature, sign_hex, signed_by, verify_hex, VerifyingKey};
use crate::lease::session::KernelKeys;
use crate::lists::views;
use crate::text::{concat, decimal, str_eq, surround, u64_text};
use vstd::prelude::*;
use vstd::utf8::encode_utf8;

verus! {

/// The version of the events.
pub const AUDIT_EVENT_VERSION: u32 = 1;

/// The hash before the first event.
pub const GENESIS_PREV_HASH: &'static str =
    "0000000000000000000000000000000000000000000000000000000000000000";

/// One event of the chain.
#[derive(Debug, PartialEq, Eq)]
pub struct AuditEvent {
    pub protocol_version: u32,
    pub seq: u64,
    pub ts: String,
    pub actor: String,
    pub action_digest: String,
    pub decision: String,
    pub prev_hash: String,
    pub hash: String,
    pub details: Json,
}

/// The model of a `AuditEvent`.
pub struct EventView {
    pub protocol_version: u32,
    pub seq: u64,
    pub ts: Seq<char>,
    pub actor: Seq<char>,
    pub action_digest: Seq<char>,
    pub decision: Seq<char>,
    pub prev_hash: Seq<char>,
    pub hash: Seq<char>,
    pub details: JsonView,
}

impl View for AuditEvent {
    type V = EventView;

    open spec fn view(&self) -> EventView {
        EventView {
            protocol_version: self.protocol_version,
            seq: self.seq,
            ts: self.ts@,
            actor: self.actor@,
            action_digest: self.action_digest@,
            decision: self.decision@,
            prev_hash: self.prev_hash@,
            hash: self.hash@,
            details: self.details@,
        }
    }
}

impl Clone for AuditEvent {
    fn clone(&self) -> (r: AuditEvent)
        ensures
            r@ == self@,
    {
        AuditEvent {
            protocol_version: self.protocol_version,
            seq: self.seq,
            ts: self.ts.clone(),
            actor: self.actor.clone(),
            action_digest: self.action_digest.clone(),
            decision: self.decision.clone(),
            prev_hash: self.prev_hash.clone(),
            hash: self.hash.clone(),
            details: self.details.clone(),
        }
    }
}

/// A checkpoint: the hash of an event, signed with the host key.
#[derive(Debug, PartialEq, Eq)]
pub struct AuditLink {
    pub seq: u64,
    pub hash: String,
    pub signature: String,
    pub key_id: String,
}

/// The model of a `AuditLink`.
pub struct LinkView {
    pub seq: u64,
    pub hash: Seq<char>,
    pub signature: Seq<char>,
    pub key_id: Seq<char>,
}

impl View for AuditLink {
    type V = LinkView;

    open spec fn view(&self) -> LinkView {
        LinkView {
            seq: self.seq,
            hash: self.hash@,
            signature: self.signature@,
            key_id: self.key_id@,
        }
    }
}

impl Clone for AuditLink {
    fn clone(&self) -> (r: AuditLink)
        ensures
            r@ == self@,
    {
        AuditLink {
            seq: self.seq,
            hash: self.hash.clone(),
            signature: self.signature.clone(),
            key_id: self.key_id.clone(),
        }
    }
}

/// What is wrong with a chain.
#[derive(Debug, PartialEq, Eq)]
pub enum AuditError {
    /// The details hold a number that is not an integer.
    NotCanonical(String),
    SequenceGap { expected: u64, actual: u64 },
    PreviousHashMismatch { seq: u64 },
    HashMismatch { seq: u64 },
}

/// The model of an `AuditError`.
pub enum ChainErrorView {
    NotCanonical(Seq<char>),
    SequenceGap { expected: int, actual: u64 },
    PreviousHashMismatch { seq: u64 },
    HashMismatch { seq: u64 },
}

impl View for AuditError {
    type V = ChainErrorView;

    open spec fn view(&self) -> ChainErrorView {
        match *self {
            AuditError::NotCanonical(s) => ChainErrorView::NotCanonical(s@),
            AuditError::SequenceGap { expected, actual } => ChainErrorView::SequenceGap {
                expected: expected as int,
                actual,
            },
            AuditError::PreviousHashMismatch { seq } => ChainErrorView::PreviousHashMismatch { seq },
            AuditError::HashMismatch { seq } => ChainErrorView::HashMismatch { seq },
        }
    }
}

/// Why the kernel's log refuses something.
#[derive(Debug, PartialEq, Eq)]
pub enum KernelAuditError {
    Contract(AuditError),
    BadCheckpointSignature,
    CheckpointMismatch(u64, String),
    WrongCheckpointKey(String),
    EmptyChain,
}

/// The model of a `KernelAuditError`.
pub enum KernelErrorView {
    Contract(ChainErrorView),
    BadCheckpointSignature,
    CheckpointMismatch(u64, Seq<char>),
    WrongCheckpointKey(Seq<char>),
    EmptyChain,
}

impl View for KernelAuditError {
    type V = KernelErrorView;

    open spec fn view(&self) -> KernelErrorView {
        match *self {
            KernelAuditError::Contract(e) => KernelErrorView::Contract(e@),
            KernelAuditError::BadCheckpointSignature => KernelErrorView::BadCheckpointSignature,
            KernelAuditError::CheckpointMismatch(n, s) => KernelErrorView::CheckpointMismatch(
                n,
                s@,
            ),
            KernelAuditError::WrongCheckpointKey(s) => KernelErrorView::WrongCheckpointKey(s@),
            KernelAuditError::EmptyChain => KernelErrorView::EmptyChain,
        }
    }
}

impl ChainErrorView {
    /// The message of the error.
    pub open spec fn message(self) -> Seq<char> {
        match self {
            ChainErrorView::NotCanonical(s) => "audit event is not canonical: "@ + s,
            ChainErrorView::SequenceGap { expected, actual } => "audit sequence expected "@
                + decimal(expected as nat) + " but found "@ + decimal(actual as nat),
            ChainErrorView::PreviousHashMismatch { seq } => "audit event "@ + decimal(seq as nat)
                + " does not reference the expected previous hash"@,
            ChainErrorView::HashMismatch { seq } => "audit event "@ + decimal(seq as nat)
                + " hash does not match its content"@,
        }
    }
}

impl AuditError {
    /// The message of the error.
    pub fn message(&self) -> (r: String)
        ensures
            r@ == self@.message(),
    {
        match self {
            AuditError::NotCanonical(s) => concat("audit event is not canonical: ", s.as_str()),
            AuditError::SequenceGap { expected, actual } => {
                let mut out = surround(
                    "audit sequence expected ",
                    u64_text(*expected).as_str(),
                    " but found ",
                );
                out.append(u64_text(*actual).as_str());
                out
            },
            AuditError::PreviousHashMismatch { seq } => surround(
                "audit event ",
                u64_text(*seq).as_str(),
                " does not reference the expected previous hash",
            ),
            AuditError::HashMismatch { seq } => surround(
                "audit event ",
                u64_text(*seq).as_str(),
                " hash does not match its content",
            ),
        }
    }
}

impl KernelErrorView {
    /// The message of the error.
    pub open spec fn message(self) -> Seq<char> {
        match self {
            KernelErrorView::Contract(e) => "audit contract error: "@ + e.message(),
            KernelErrorView::BadCheckpointSignature => "bad checkpoint signature"@,
            KernelErrorView::CheckpointMismatch(seq, hash) => "checkpoint for seq "@ + decimal(
                seq as nat,
            ) + " does not match chain hash "@ + hash,
            KernelErrorView::WrongCheckpointKey(key) => "checkpoint key "@ + key
                + " is not the host key"@,
            KernelErrorView::EmptyChain => "no events to checkpoint"@,
        }
    }
}

impl KernelAuditError {
    /// The message of the error.
    pub fn message(&self) -> (r: String)
        ensures
            r@ == self@.message(),
    {
        match self {
            KernelAuditError::Contract(e) => concat("audit contract error: ", e.message().as_str()),
            KernelAuditError::BadCheckpointSignature => "bad checkpoint signature".to_owned(),
            KernelAuditError::CheckpointMismatch(seq, hash) => {
                let mut out = surround(
                    "checkpoint for seq ",
                    u64_text(*seq).as_str(),
                    " does not match chain hash ",
                );
                out.append(hash.as_str());
                out
            },
            KernelAuditError::WrongCheckpointKey(key) => surround(
                "checkpoint key ",
                key.as_str(),
                " is not the host key",
            ),
            KernelAuditError::EmptyChain => "no events to checkpoint".to_owned(),
        }
    }
}

impl EventView {
    /// The JSON value whose canonical text is hashed: all but the hash.
    pub open spec fn json(self) -> JsonView {
        JsonView::Object(
            no_fields().push(("protocol_version"@, JsonView::Int(self.protocol_version as int))).push(
                ("seq"@, JsonView::Int(self.seq as int)),
            ).push(("ts"@, JsonView::Str(self.ts))).push(("actor"@, JsonView::Str(self.actor))).push(
                ("action_digest"@, JsonView::Str(self.action_digest)),
            ).push(("decision"@, JsonView::Str(self.decision))).push(
                ("prev_hash"@, JsonView::Str(self.prev_hash)),
            ).push(("details"@, self.details)),
        )
    }

    /// The hash of the content, or why there is none.
    pub open spec fn content_hash(self) -> Result<Seq<char>, ChainErrorView> {
        match canonical(self.json()) {
            Ok(t) => Ok(text_digest(t)),
            Err(m) => Err(ChainErrorView::NotCanonical(m)),
        }
    }

    /// The event bound to the one before it.
    pub open spec fn sealed(self, prev: Option<EventView>) -> Result<EventView, ChainErrorView> {
        let bound = EventView {
            prev_hash: match prev {
                Some(p) => p.hash,
                None => GENESIS_PREV_HASH@,
            },
            ..self
        };
        match bound.content_hash() {
            Ok(hash) => Ok(EventView { hash, ..bound }),
            Err(e) => Err(e),
        }
    }
}

impl AuditEvent {
    fn to_json(&self) -> (r: Json)
        ensures
            r@ == self@.json(),
    {
        let mut m = no_members();
        put(&mut m, "protocol_version", Json::UInt(self.protocol_version as u64));
        put(&mut m, "seq", Json::UInt(self.seq));
        put(&mut m, "ts", string(self.ts.as_str()));
        put(&mut m, "actor", string(self.actor.as_str()));
        put(&mut m, "action_digest", string(self.action_digest.as_str()));
        put(&mut m, "decision", string(self.decision.as_str()));
        put(&mut m, "prev_hash", string(self.prev_hash.as_str()));
        put(&mut m, "details", self.details.clone());
        object(m)
    }

    /// The hash of the content.
    pub fn content_hash(&self) -> (r: Result<String, AuditError>)
        ensures
            match r {
                Ok(h) => self@.content_hash() == Ok::<Seq<char>, ChainErrorView>(h@),
                Err(e) => self@.content_hash() == Err::<Seq<char>, ChainErrorView>(e@),
            },
    {
        match self.to_json().canonical_text() {
            Ok(t) => Ok(sha256_hex_str(t.as_str())),
            Err(m) => Err(AuditError::NotCanonical(m)),
        }
    }
}

/// Binds an event to the one before it.
pub fn append(prev: Option<&AuditEvent>, event: AuditEvent) -> (r: Result<AuditEvent, AuditError>)
    ensures
        ({
            let before = match prev {
                Some(p) => Some(p@),
                None => None,
            };
            match r {
                Ok(e) => event@.sealed(before) == Ok::<EventView, ChainErrorView>(e@),
                Err(e) => event@.sealed(before) == Err::<EventView, ChainErrorView>(e@),
            }
        }),
{
    let mut bound = event;
    bound.prev_hash = match prev {
        Some(p) => p.hash.clone(),
        None => GENESIS_PREV_HASH.to_owned(),
    };
    match bound.content_hash() {
        Ok(h) => {
            bound.hash = h;
            Ok(bound)
        },
        Err(e) => Err(e),
    }
}

/// The hash before event `i`.
pub open spec fn hash_before(events: Seq<EventView>, i: int) -> Seq<char> {
    if i <= 0 {
        GENESIS_PREV_HASH@
    } else {
        events[i - 1].hash
    }
}

/// What is wrong with event `i` of a chain.
pub open spec fn event_flaw(events: Seq<EventView>, i: int) -> Option<ChainErrorView> {
    let e = events[i];
    if e.seq != i {
        Some(ChainErrorView::SequenceGap { expected: i, actual: e.seq })
    } else if e.prev_hash != hash_before(events, i) {
        Some(ChainErrorView::PreviousHashMismatch { seq: e.seq })
    } else {
        match e.content_hash() {
            Err(e) => Some(e),
            Ok(h) => if h != e.hash {
                Some(ChainErrorView::HashMismatch { seq: e.seq })
            } else {
                None
            },
        }
    }
}

/// The first flaw of a chain from event `i` on.
pub open spec fn chain_flaw(events: Seq<EventView>, i: int) -> Option<ChainErrorView>
    decreases events.len() - i,
{
    if i < 0 || i >= events.len() {
        None
    } else if event_flaw(events, i) is Some {
        event_flaw(events, i)
    } else {
        chain_flaw(events, i + 1)
    }
}

/// Checks that the events are numbered from zero, that each names the hash of
/// the one before it, and that each hash is that of its content.
pub fn verify_chain(events: &[AuditEvent]) -> (r: Result<(), AuditError>)
    ensures
        match r {
            Ok(()) => chain_flaw(views(events@), 0) is None,
            Err(e) => chain_flaw(views(events@), 0) == Some(e@),
        },
{
    let ghost all = views(events@);
    let mut i: usize = 0;
    while i < events.len()
        invariant
            i <= events@.len(),
            all == views(events@),
            chain_flaw(all, 0) == chain_flaw(all, i as int),
        decreases events@.len() - i,
    {
        let e = &events[i];
        proof {
            assert(all[i as int] == e@);
            if i > 0 {
                assert(all[i - 1] == events@[i - 1]@);
            }
        }
        if e.seq != i as u64 {
            return Err(AuditError::SequenceGap { expected: i as u64, actual: e.seq });
        }
        let expected = if i == 0 {
            GENESIS_PREV_HASH
        } else {
            events[i - 1].hash.as_str()
        };
        if !str_eq(e.prev_hash.as_str(), expected) {
            return Err(AuditError::PreviousHashMismatch { seq: e.seq });
        }
        match e.content_hash() {
            Ok(h) => {
                if !str_eq(h.as_str(), e.hash.as_str()) {
                    return Err(AuditError::HashMismatch { seq: e.seq });
                }
            },
            Err(e) => {
                return Err(e);
            },
        }
        i += 1;
    }
    Ok(())
}

proof fn chain_flaw_none(events: Seq<EventView>, from: int)
    requires
        0 <= from,
    ensures
        chain_flaw(events, from) is None <==> forall|i: int|
            from <= i < events.len() ==> #[trigger] event_flaw(events, i) is None,
    decreases events.len() - from,
{
    if from < events.len() {
        chain_flaw_none(events, from + 1);
    }
}

/// Where sealed events and checkpoints are kept.
pub trait AuditStore {
    /// The events.
    spec fn event_views(&self) -> Seq<EventView>;

    /// The checkpoints.
    spec fn link_views(&self) -> Seq<LinkView>;

    /// Adds an event behind the others.
    fn append_event(&mut self, event: AuditEvent)
        ensures
            final(self).event_views() == old(self).event_views().push(event@),
            final(self).link_views() == old(self).link_views(),
    ;

    /// The events in order.
    fn events(&self) -> (r: &[AuditEvent])
        ensures
            views(r@) == self.event_views(),
    ;

    /// Adds a checkpoint behind the others.
    fn checkpoint(&mut self, link: AuditLink)
        ensures
            final(self).link_views() == old(self).link_views().push(link@),
            final(self).event_views() == old(self).event_views(),
    ;

    /// The checkpoints in order.
    fn checkpoints(&self) -> (r: &[AuditLink])
        ensures
            views(r@) == self.link_views(),
    ;
}

/// Events and checkpoints in memory.
#[derive(Debug)]
pub struct MemoryAuditStore {
    events: Vec<AuditEvent>,
    checkpoints: Vec<AuditLink>,
}

impl Default for MemoryAuditStore {
    fn default() -> (r: MemoryAuditStore)
        ensures
            r.event_views() == Seq::<EventView>::empty(),
            r.link_views() == Seq::<LinkView>::empty(),
    {
        let r = MemoryAuditStore { events: Vec::new(), checkpoints: Vec::new() };
        proof {
            assert(r.event_views() =~= Seq::<EventView>::empty());
            assert(r.link_views() =~= Seq::<LinkView>::empty());
        }
        r
    }
}

impl AuditStore for MemoryAuditStore {
    closed spec fn event_views(&self) -> Seq<EventView> {
        views(self.events@)
    }

    closed spec fn link_views(&self) -> Seq<LinkView> {
        views(self.checkpoints@)
    }

    fn append_event(&mut self, event: AuditEvent) {
        let ghost before = self.event_views();
        let ghost e = event@;
        self.events.push(event);
        proof {
            assert(self.event_views() =~= before.push(e));
        }
    }

    fn events(&self) -> (r: &[AuditEvent]) {
        self.events.as_slice()
    }

    fn checkpoint(&mut self, link: AuditLink) {
        let ghost before = self.link_views();
        let ghost l = link@;
        self.checkpoints.push(link);
        proof {
            assert(self.link_views() =~= before.push(l));
        }
    }

    fn checkpoints(&self) -> (r: &[AuditLink]) {
        self.checkpoints.as_slice()
    }
}

/// The JSON value that a checkpoint signs.
pub open spec fn checkpoint_json(seq: u64, hash: Seq<char>, key_id: Seq<char>) -> JsonView {
    JsonView::Object(
        no_fields().push(("protocol"@, JsonView::Str("lumen-audit-checkpoint/v1"@))).push(
            ("seq"@, JsonView::Int(seq as int)),
        ).push(("hash"@, JsonView::Str(hash))).push(("key_id"@, JsonView::Str(key_id))),
    )
}

/// The text that a checkpoint signs.
pub open spec fn checkpoint_text(seq: u64, hash: Seq<char>, key_id: Seq<char>) -> Seq<char> {
    canonical(checkpoint_json(seq, hash, key_id))->Ok_0
}

proof fn checkpoints_are_canonical(seq: u64, hash: Seq<char>, key_id: Seq<char>)
    ensures
        canonical(checkpoint_json(seq, hash, key_id)) is Ok,
{
    broadcast use {integral_none, integral_push};

    let v = checkpoint_json(seq, hash, key_id);
    assert(integral(JsonView::Str("lumen-audit-checkpoint/v1"@)));
    assert(integral(JsonView::Int(seq as int)));
    assert(integral(JsonView::Str(hash)));
    assert(integral(JsonView::Str(key_id)));
    assert(integral(v));
    canonical_iff_integral(v);
}

/// The canonical text that a checkpoint signs.
pub fn checkpoint_signing_bytes(seq: u64, hash: &str, key_id: &str) -> (r: String)
    ensures
        r@ == checkpoint_text(seq, hash@, key_id@),
{
    let mut m = no_members();
    put(&mut m, "protocol", string("lumen-audit-checkpoint/v1"));
    put(&mut m, "seq", Json::UInt(seq));
    put(&mut m, "hash", string(hash));
    put(&mut m, "key_id", string(key_id));
    proof {
        checkpoints_are_canonical(seq, hash@, key_id@);
    }
    match object(m).canonical_text() {
        Ok(t) => t,
        Err(_) => String::new(),
    }
}

/// The first event, from `i` on, with a sequence number.
pub open spec fn event_with(events: Seq<EventView>, seq: u64, i: int) -> Option<EventView>
    decreases events.len() - i,
{
    if i < 0 || i >= events.len() {
        None
    } else if events[i].seq == seq {
        Some(events[i])
    } else {
        event_with(events, seq, i + 1)
    }
}

fn find_event(events: &[AuditEvent], seq: u64) -> (r: Option<usize>)
    ensures
        match r {
            Some(i) => i < events@.len() && event_with(views(events@), seq, 0) == Some(
                events@[i as int]@,
            ),
            None => event_with(views(events@), seq, 0) is None,
        },
{
    let ghost all = views(events@);
    let mut i: usize = 0;
    while i < events.len()
        invariant
            i <= events@.len(),
            all == views(events@),
            event_with(all, seq, 0) == event_with(all, seq, i as int),
        decreases events@.len() - i,
    {
        proof {
            assert(all[i as int] == events@[i as int]@);
        }
        if events[i].seq == seq {
            return Some(i);
        }
        i += 1;
    }
    None
}

/// What is wrong with a checkpoint of a chain, under a host key.
pub open spec fn link_flaw(
    events: Seq<EventView>,
    link: LinkView,
    key: Seq<u8>,
    key_id: Seq<char>,
) -> Option<KernelErrorView> {
    if link.key_id != key_id {
        Some(KernelErrorView::WrongCheckpointKey(link.key_id))
    } else {
        match event_with(events, link.seq, 0) {
            None => Some(KernelErrorView::CheckpointMismatch(link.seq, link.hash)),
            Some(e) => if e.hash != link.hash {
                Some(KernelErrorView::CheckpointMismatch(link.seq, link.hash))
            } else if !signed_by(
                key,
                encode_utf8(checkpoint_text(link.seq, link.hash, link.key_id)),
                link.signature,
            ) {
                Some(KernelErrorView::BadCheckpointSignature)
            } else {
                None
            },
        }
    }
}

/// The first flaw of the checkpoints from `i` on.
pub open spec fn links_flaw(
    events: Seq<EventView>,
    links: Seq<LinkView>,
    key: Seq<u8>,
    key_id: Seq<char>,
    i: int,
) -> Option<KernelErrorView>
    decreases links.len() - i,
{
    if i < 0 || i >= links.len() {
        None
    } else if link_flaw(events, links[i], key, key_id) is Some {
        link_flaw(events, links[i], key, key_id)
    } else {
        links_flaw(events, links, key, key_id, i + 1)
    }
}

/// The first flaw of a chain and its checkpoints.
pub open spec fn log_flaw(
    events: Seq<EventView>,
    links: Seq<LinkView>,
    key: Seq<u8>,
    key_id: Seq<char>,
) -> Option<KernelErrorView> {
    match chain_flaw(events, 0) {
        Some(e) => Some(KernelErrorView::Contract(e)),
        None => links_flaw(events, links, key, key_id, 0),
    }
}

/// Checks a chain and its checkpoints with nothing but the public host key.
pub fn verify_chain_with_checkpoints(
    events: &[AuditEvent],
    checkpoints: &[AuditLink],
    host_key: &VerifyingKey,
    expected_key_id: &str,
) -> (r: Result<(), KernelAuditError>)
    ensures
        ({
            let flaw = log_flaw(
                views(events@),
                views(checkpoints@),
                host_key@,
                expected_key_id@,
            );
            match r {
                Ok(()) => flaw is None,
                Err(e) => flaw == Some(e@),
            }
        }),
{
    match verify_chain(events) {
        Ok(()) => {},
        Err(e) => {
            return Err(KernelAuditError::Contract(e));
        },
    }
    let ghost all = views(events@);
    let ghost links = views(checkpoints@);
    let mut i: usize = 0;
    while i < checkpoints.len()
        invariant
            i <= checkpoints@.len(),
            all == views(events@),
            links == views(checkpoints@),
            chain_flaw(all, 0) is None,
            links_flaw(all, links, host_key@, expected_key_id@, 0) == links_flaw(
                all,
                links,
                host_key@,
                expected_key_id@,
                i as int,
            ),
        decreases checkpoints@.len() - i,
    {
        let link = &checkpoints[i];
        proof {
            assert(links[i as int] == link@);
        }
        if !str_eq(link.key_id.as_str(), expected_key_id) {
            return Err(KernelAuditError::WrongCheckpointKey(link.key_id.clone()));
        }
        match find_event(events, link.seq) {
            None => {
                return Err(KernelAuditError::CheckpointMismatch(link.seq, link.hash.clone()));
            },
            Some(k) => {
                if !str_eq(events[k].hash.as_str(), link.hash.as_str()) {
                    return Err(KernelAuditError::CheckpointMismatch(link.seq, link.hash.clone()));
                }
            },
        }
        let text = checkpoint_signing_bytes(link.seq, link.hash.as_str(), link.key_id.as_str());
        if !verify_hex(host_key, text.as_str().as_bytes(), link.signature.as_str()) {
            return Err(KernelAuditError::BadCheckpointSignature);
        }
        i += 1;
    }
    Ok(())
}

/// The kernel's log. It takes the secrets out of what is recorded, binds each
/// event to the one before it, and signs checkpoints.
pub struct KernelAuditLog<S: AuditStore> {
    store: S,
}

/// The event that is recorded behind others, or why none is.
pub open spec fn recorded(
    events: Seq<EventView>,
    actor: Seq<char>,
    action_digest: Seq<char>,
    decision: Seq<char>,
    ts: Seq<char>,
    details: JsonView,
) -> Result<EventView, ChainErrorView> {
    let prev = if events.len() > 0 {
        Some(events.last())
    } else {
        None
    };
    (EventView {
        protocol_version: AUDIT_EVENT_VERSION,
        seq: match prev {
            Some(p) => (p.seq + 1) as u64,
            None => 0,
        },
        ts,
        actor,
        action_digest,
        decision,
        prev_hash: Seq::empty(),
        hash: Seq::empty(),
        details: redacted(details),
    }).sealed(prev)
}

/// The checkpoint of the event with a sequence number, signed with the host
/// key.
pub open spec fn signed_link(seq: u64, hash: Seq<char>, keys: KernelKeys) -> LinkView {
    LinkView {
        seq,
        hash,
        signature: hex_signature(
            keys.host_seed(),
            encode_utf8(checkpoint_text(seq, hash, keys.host_id())),
        ),
        key_id: keys.host_id(),
    }
}

impl<S: AuditStore> KernelAuditLog<S> {
    /// What the log keeps its events in.
    pub closed spec fn kept(&self) -> S {
        self.store
    }

    /// The events.
    pub open spec fn event_views(&self) -> Seq<EventView> {
        self.kept().event_views()
    }

    /// The checkpoints.
    pub open spec fn link_views(&self) -> Seq<LinkView> {
        self.kept().link_views()
    }

    /// A log that keeps its events in `store`.
    pub fn new(store: S) -> (r: KernelAuditLog<S>)
        ensures
            r.kept() == store,
    {
        KernelAuditLog { store }
    }

    /// What the log keeps its events in.
    pub fn store(&self) -> (r: &S)
        ensures
            *r == self.kept(),
    {
        &self.store
    }

    /// Records an event. The secrets are taken out of its details before it is
    /// bound to the chain.
    pub fn append(
        &mut self,
        actor: &str,
        action_digest: &str,
        decision: &str,
        ts: &str,
        details: Json,
    ) -> (r: Result<AuditEvent, KernelAuditError>)
        requires
            old(self).event_views().len() > 0 ==> old(self).event_views().last().seq < u64::MAX,
        ensures
            final(self).link_views() == old(self).link_views(),
            ({
                let e = recorded(
                    old(self).event_views(),
                    actor@,
                    action_digest@,
                    decision@,
                    ts@,
                    details@,
                );
                match r {
                    Ok(event) =>
                        e == Ok::<EventView, ChainErrorView>(event@)
                            && final(self).event_views() == old(self).event_views().push(event@),
                    Err(err) =>
                        e matches Err(f) && err@ == KernelErrorView::Contract(f)
                            && final(self).event_views() == old(self).event_views(),
                }
            }),
    {
        let mut clean = details;
        redact_details(&mut clean);
        let events = self.store.events();
        let n: usize = events.len();
        let prev = if n > 0 {
            Some(&events[n - 1])
        } else {
            None
        };
        proof {
            if n > 0 {
                assert(self.event_views().last() == events@[n - 1]@);
            }
        }
        let seq = match prev {
            Some(p) => p.seq + 1,
            None => 0,
        };
        let event = AuditEvent {
            protocol_version: AUDIT_EVENT_VERSION,
            seq,
            ts: ts.to_owned(),
            actor: actor.to_owned(),
            action_digest: action_digest.to_owned(),
            decision: decision.to_owned(),
            prev_hash: String::new(),
            hash: String::new(),
            details: clean,
        };
        proof {
            assert(event@.prev_hash =~= Seq::<char>::empty());
            assert(event@.hash =~= Seq::<char>::empty());
        }
        match append(prev, event) {
            Ok(sealed) => {
                self.store.append_event(sealed.clone());
                Ok(sealed)
            },
            Err(e) => Err(KernelAuditError::Contract(e)),
        }
    }

    /// Signs a checkpoint of the chain up to the event with a sequence number. It
    /// is accepted under the public host key.
    pub fn checkpoint(&mut self, upto_seq: u64, keys: &KernelKeys) -> (r: Result<
        AuditLink,
        KernelAuditError,
    >)
        ensures
            final(self).event_views() == old(self).event_views(),
            match r {
                Ok(link) => event_with(old(self).event_views(), upto_seq, 0) matches Some(e)
                    && link@ == signed_link(upto_seq, e.hash, *keys) && final(self).link_views()
                    == old(self).link_views().push(link@) && link_flaw(
                    old(self).event_views(),
                    link@,
                    ed25519_public(keys.host_seed()),
                    keys.host_id(),
                ) is None,
                Err(e) => event_with(old(self).event_views(), upto_seq, 0) is None && e
                    == KernelAuditError::EmptyChain && final(self).link_views() == old(self).link_views(),
            },
    {
        let events = self.store.events();
        let k = match find_event(events, upto_seq) {
            Some(k) => k,
            None => {
                return Err(KernelAuditError::EmptyChain);
            },
        };
        let hash = events[k].hash.clone();
        let text = checkpoint_signing_bytes(upto_seq, hash.as_str(), keys.host_id_text());
        let signature = sign_hex(keys.host_key(), text.as_str().as_bytes());
        let link = AuditLink {
            seq: upto_seq,
            hash,
            signature,
            key_id: keys.host_id_text().to_owned(),
        };
        self.store.checkpoint(link.clone());
        Ok(link)
    }

    /// Checks the chain and all checkpoints. The first break is reported.
    pub fn verify(&self, host_key: &VerifyingKey, expected_key_id: &str) -> (r: Result<
        (),
        KernelAuditError,
    >)
        ensures
            ({
                let flaw = log_flaw(
                    self.event_views(),
                    self.link_views(),
                    host_key@,
                    expected_key_id@,
                );
                match r {
                    Ok(()) => flaw is None,
                    Err(e) => flaw == Some(e@),
                }
            }),
    {
        verify_chain_with_checkpoints(
            self.store.events(),
            self.store.checkpoints(),
            host_key,
            expected_key_id,
        )
    }
}

/// A chain without flaws stays so when an event is recorded.
pub proof fn recording_keeps_the_chain(
    events: Seq<EventView>,
    actor: Seq<char>,
    action_digest: Seq<char>,
    decision: Seq<char>,
    ts: Seq<char>,
    details: JsonView,
)
    requires
        chain_flaw(events, 0) is None,
        events.len() <= u64::MAX,
    ensures
        recorded(events, actor, action_digest, decision, ts, details) matches Ok(e)
            ==> chain_flaw(events.push(e), 0) is None && e.details == redacted(details),
{
    if let Ok(e) = recorded(events, actor, action_digest, decision, ts, details) {
        let all = events.push(e);
        chain_flaw_none(events, 0);
        if events.len() > 0 {
            assert(event_flaw(events, events.len() - 1) is None);
        }
        assert forall|i: int| 0 <= i < all.len() implies #[trigger] event_flaw(all, i) is None by {
            if i < events.len() {
                assert(event_flaw(events, i) is None);
                assert(all[i] == events[i]);
                assert(hash_before(all, i) == hash_before(events, i));
            }
        }
        chain_flaw_none(all, 0);
    }
}

/// A chain without flaws shows every change of an event that changes its hash:
/// each event has the hash of its content, and names that of the one before.
pub proof fn verified_events_are_intact(events: Seq<EventView>, i: int)
    requires
        chain_flaw(events, 0) is None,
        0 <= i < events.len(),
    ensures
        events[i].seq == i,
        events[i].prev_hash == hash_before(events, i),
        events[i].content_hash() == Ok::<Seq<char>, ChainErrorView>(events[i].hash),
{
    chain_flaw_none(events, 0);
    assert(event_flaw(events, i) is None);
}

/// The events agree in all but the hash, up to the order in which the objects of
/// the details list their members.
pub open spec fn same_content(a: EventView, b: EventView) -> bool {
    &&& a.protocol_version == b.protocol_version
    &&& a.seq == b.seq
    &&& a.ts == b.ts
    &&& a.actor == b.actor
    &&& a.action_digest == b.action_digest
    &&& a.decision == b.decision
    &&& a.prev_hash == b.prev_hash
    &&& same_value(a.details, b.details)
}

/// What is hashed covers every field but the hash: two events with the same
/// hashed value, and so two with the same hashed text, agree in the version,
/// the number, the time, the actor, the digest of the action, the decision, the
/// hash before and the details.
pub proof fn hashed_content_tells_events_apart(a: EventView, b: EventView)
    ensures
        same_value(a.json(), b.json()) ==> same_content(a, b),
        literals_read_back() && canonical(a.json()) is Ok && canonical(a.json()) == canonical(
            b.json(),
        ) ==> same_content(a, b),
{
    canonical_text_tells_values_apart(a.json(), b.json());
    if same_value(a.json(), b.json()) {
        reveal_strlit("protocol_version");
        reveal_strlit("seq");
        reveal_strlit("ts");
        reveal_strlit("actor");
        reveal_strlit("action_digest");
        reveal_strlit("decision");
        reveal_strlit("prev_hash");
        reveal_strlit("details");
        let x = a.json()->Object_0;
        let y = b.json()->Object_0;
        assert(x.len() == 8 && y.len() == 8);
        assert(y[0].0 == "protocol_version"@ && y[1].0 == "seq"@ && y[2].0 == "ts"@);
        assert(y[3].0 == "actor"@ && y[4].0 == "action_digest"@ && y[5].0 == "decision"@);
        assert(y[6].0 == "prev_hash"@ && y[7].0 == "details"@);
        assert(unique_keys(y));
        members_correspond(x, y, 0, 0);
        members_correspond(x, y, 1, 1);
        members_correspond(x, y, 2, 2);
        members_correspond(x, y, 3, 3);
        members_correspond(x, y, 4, 4);
        members_correspond(x, y, 5, 5);
        members_correspond(x, y, 6, 6);
        members_correspond(x, y, 7, 7);
    }
}

/// Two different texts have the same digest.
pub open spec fn digests_collide(s: Seq<char>, t: Seq<char>) -> bool {
    s != t && text_digest(s) == text_digest(t)
}

/// The hash of the last event fixes the whole chain: two chains without flaws
/// that end in the same hash after equally many events hold the same events, or
/// two different texts with the same digest are known.
pub proof fn the_last_hash_fixes_the_chain(a: Seq<EventView>, b: Seq<EventView>, i: int)
    requires
        chain_flaw(a, 0) is None,
        chain_flaw(b, 0) is None,
        a.len() == b.len(),
        0 <= i < a.len(),
        a.last().hash == b.last().hash,
    ensures
        literals_read_back() && !(exists|s: Seq<char>, t: Seq<char>| #[trigger]
            digests_collide(s, t)) ==> a[i].hash == b[i].hash && same_content(a[i], b[i]),
    decreases a.len() - i,
{
    verified_events_are_intact(a, i);
    verified_events_are_intact(b, i);
    if i + 1 < a.len() {
        the_last_hash_fixes_the_chain(a, b, i + 1);
        verified_events_are_intact(a, i + 1);
        verified_events_are_intact(b, i + 1);
    }
    if literals_read_back() && !(exists|s: Seq<char>, t: Seq<char>| #[trigger]
        digests_collide(s, t)) {
        assert(a[i].hash == b[i].hash);
        let s = canonical(a[i].json())->Ok_0;
        let t = canonical(b[i].json())->Ok_0;
        assert(!digests_collide(s, t));
        hashed_content_tells_events_apart(a[i], b[i]);
    }
}

/// A record says what happened: the actor, the digest of the action, the
/// decision and the time as they were given, the details without their secrets,
/// the next number, and the hash of the event before it. An event is recorded
/// whenever its details, without their secrets, hold no number but integers.
pub proof fn records_say_what_happened(
    events: Seq<EventView>,
    actor: Seq<char>,
    action_digest: Seq<char>,
    decision: Seq<char>,
    ts: Seq<char>,
    details: JsonView,
)
    requires
        chain_flaw(events, 0) is None,
        events.len() <= u64::MAX,
    ensures
        recorded(events, actor, action_digest, decision, ts, details) is Ok <==> integral(
            redacted(details),
        ),
        recorded(events, actor, action_digest, decision, ts, details) matches Ok(e) ==> {
            &&& e.actor == actor && e.action_digest == action_digest
            &&& e.decision == decision && e.ts == ts
            &&& e.details == redacted(details)
            &&& e.protocol_version == 1
            &&& e.seq == events.len()
            &&& events.len() == 0 ==> e.prev_hash == GENESIS_PREV_HASH@
            &&& events.len() > 0 ==> e.prev_hash == events.last().hash
        },
{
    broadcast use {integral_none, integral_push};

    if events.len() > 0 {
        verified_events_are_intact(events, events.len() - 1);
    }
    let prev = hash_before(events, events.len() as int);
    let bound = EventView {
        protocol_version: AUDIT_EVENT_VERSION,
        seq: events.len() as u64,
        ts,
        actor,
        action_digest,
        decision,
        prev_hash: prev,
        hash: Seq::empty(),
        details: redacted(details),
    };
    let v = bound.json();
    canonical_iff_integral(v);
    let m = v->Object_0;
    assert(m[7] == ("details"@, redacted(details)));
    if integral(redacted(details)) {
        assert(integral(JsonView::Int(bound.protocol_version as int)));
        assert(integral(JsonView::Int(bound.seq as int)));
        assert(integral(JsonView::Str(ts)));
        assert(integral(JsonView::Str(actor)));
        assert(integral(JsonView::Str(action_digest)));
        assert(integral(JsonView::Str(decision)));
        assert(integral(JsonView::Str(prev)));
        assert(integral(v));
    }
}

/// What a checkpoint signs tells checkpoints apart: two with the same signed
/// value, and so two with the same signed text, are of the same event, by its
/// number and its hash, under the same key.
pub proof fn signed_checkpoints_are_told_apart(
    seq: u64,
    hash: Seq<char>,
    key_id: Seq<char>,
    other_seq: u64,
    other_hash: Seq<char>,
    other_key_id: Seq<char>,
)
    ensures
        same_value(
            checkpoint_json(seq, hash, key_id),
            checkpoint_json(other_seq, other_hash, other_key_id),
        ) ==> seq == other_seq && hash == other_hash && key_id == other_key_id,
        literals_read_back() && checkpoint_text(seq, hash, key_id) == checkpoint_text(
            other_seq,
            other_hash,
            other_key_id,
        ) ==> seq == other_seq && hash == other_hash && key_id == other_key_id,
{
    let a = checkpoint_json(seq, hash, key_id);
    let b = checkpoint_json(other_seq, other_hash, other_key_id);
    checkpoints_are_canonical(seq, hash, key_id);
    checkpoints_are_canonical(other_seq, other_hash, other_key_id);
    canonical_text_tells_values_apart(a, b);
    if same_value(a, b) {
        reveal_strlit("protocol");
        reveal_strlit("seq");
        reveal_strlit("hash");
        reveal_strlit("key_id");
        let x = a->Object_0;
        let y = b->Object_0;
        assert(x.len() == 4 && y.len() == 4);
        assert(y[0].0 == "protocol"@ && y[1].0 == "seq"@ && y[2].0 == "hash"@);
        assert(y[3].0 == "key_id"@);
        assert(unique_keys(y));
        members_correspond(x, y, 1, 1);
        members_correspond(x, y, 2, 2);
        members_correspond(x, y, 3, 3);
    }
}

/// In a log that passes, every checkpoint names the expected key, is of an event
/// that stands in the chain under its number with its hash, and is signed for
/// just that with the host key.
pub proof fn checked_checkpoints_are_signed(
    events: Seq<EventView>,
    links: Seq<LinkView>,
    key: Seq<u8>,
    key_id: Seq<char>,
    i: int,
)
    requires
        log_flaw(events, links, key, key_id) is None,
        0 <= i < links.len(),
    ensures
        chain_flaw(events, 0) is None,
        links[i].key_id == key_id,
        links[i].seq < events.len(),
        events[links[i].seq as int].hash == links[i].hash,
        events[links[i].seq as int].seq == links[i].seq,
        signed_by(
            key,
            encode_utf8(checkpoint_text(links[i].seq, links[i].hash, key_id)),
            links[i].signature,
        ),
{
    each_link(events, links, key, key_id, 0, i);
    found_event(events, links[i].seq, 0);
    let e = event_with(events, links[i].seq, 0)->0;
    let k = choose|k: int| 0 <= k < events.len() && #[trigger] events[k] == e;
    verified_events_are_intact(events, k);
}

proof fn each_link(
    events: Seq<EventView>,
    links: Seq<LinkView>,
    key: Seq<u8>,
    key_id: Seq<char>,
    from: int,
    i: int,
)
    requires
        links_flaw(events, links, key, key_id, from) is None,
        0 <= from <= i < links.len(),
    ensures
        link_flaw(events, links[i], key, key_id) is None,
    decreases links.len() - from,
{
    if from < i {
        each_link(events, links, key, key_id, from + 1, i);
    }
}

proof fn found_event(events: Seq<EventView>, seq: u64, from: int)
    requires
        0 <= from,
    ensures
        event_with(events, seq, from) matches Some(e) ==> e.seq == seq && exists|k: int|
            from <= k < events.len() && #[trigger] events[k] == e,
    decreases events.len() - from,
{
    if from < events.len() {
        if events[from].seq == seq {
            assert(events[from] == event_with(events, seq, from)->0);
        } else {
            found_event(events, seq, from + 1);
        }
    }
}

} // verus!
