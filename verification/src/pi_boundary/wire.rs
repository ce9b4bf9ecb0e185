//! The records on the kernel wire, and direct access to a kernel in the same
//! process.

use super::audit::{append_keeps_the_chain, linked, ActorView, AuditActor, AuditEventKind};
use super::decision::{DecisionView, PolicyDecision};
use super::envelope::{ActionEnvelope, EnvelopeView, LeaseId};
use super::kernel::{
    evaluation_keeps_the_audit_chain, event_of, KernelView, LocalKernel, Readings,
};
use super::{KERNEL_MAX_RECORD_BYTES, KERNEL_WIRE_PROTOCOL};
use crate::clock::now_ms;
use crate::ids::random_uuid;
use crate::ordered::ascending_keys;
use crate::text::{concat, str_byte_len, str_eq};
use vstd::prelude::*;

verus! {

/// One request: a line of JSON.
#[derive(Clone, Debug)]
pub struct KernelWireRequest {
    pub protocol: String,
    pub credential: String,
    pub envelope: ActionEnvelope,
}

/// One response: a line of JSON.
#[derive(Clone, Debug)]
pub struct KernelWireResponse {
    pub protocol: String,
    pub decision: Option<PolicyDecision>,
    pub audit_sequence: Option<u64>,
    pub action_digest: Option<String>,
    pub error: Option<WireError>,
}

/// An error on the wire.
#[derive(Clone, Debug, PartialEq, Eq)]
pub struct WireError {
    pub code: String,
    pub detail: String,
}

/// The peer that a listener admits.
#[derive(Clone, Copy, Debug)]
pub struct PeerPolicy {
    pub uid: u32,
    pub pid: Option<u32>,
}

impl PeerPolicy {
    /// Whether a peer with the given user and process is admitted.
    pub fn admits(&self, uid: u32, pid: Option<i32>) -> (r: bool)
        ensures
            r == (self.uid == uid && (match self.pid {
                Some(p) => pid matches Some(q) && q as int == wrapped_pid(p),
                None => true,
            })),
    {
        if self.uid != uid {
            return false;
        }
        match self.pid {
            Some(p) => match pid {
                Some(q) => {
                    if p <= 0x7fff_ffff {
                        q >= 0 && q as u32 == p
                    } else {
                        q < 0 && (q as i64) + 0x1_0000_0000 == p as i64
                    }
                },
                None => false,
            },
            None => true,
        }
    }
}

/// A process number as the operating system reports it, in 32 bits with a
/// sign.
pub open spec fn wrapped_pid(p: u32) -> int {
    if p <= 0x7fff_ffff {
        p as int
    } else {
        p - 0x1_0000_0000
    }
}

impl KernelWireResponse {
    /// The response that carries a decision.
    pub fn ok(decision: PolicyDecision, audit_sequence: u64, action_digest: String) -> (r:
        KernelWireResponse)
        ensures
            r.protocol@ == KERNEL_WIRE_PROTOCOL@,
            r.decision == Some(decision),
            r.audit_sequence == Some(audit_sequence),
            r.action_digest == Some(action_digest),
            r.error is None,
    {
        KernelWireResponse {
            protocol: KERNEL_WIRE_PROTOCOL.to_owned(),
            decision: Some(decision),
            audit_sequence: Some(audit_sequence),
            action_digest: Some(action_digest),
            error: None,
        }
    }

    /// The response that carries an error.
    pub fn err(code: &str, detail: String) -> (r: KernelWireResponse)
        ensures
            r.protocol@ == KERNEL_WIRE_PROTOCOL@,
            r.decision is None,
            r.audit_sequence is None,
            r.action_digest is None,
            r.error matches Some(e) && e.code@ == code@ && e.detail@ == detail@,
    {
        KernelWireResponse {
            protocol: KERNEL_WIRE_PROTOCOL.to_owned(),
            decision: None,
            audit_sequence: None,
            action_digest: None,
            error: Some(WireError { code: code.to_owned(), detail }),
        }
    }
}

/// Whether two byte strings are equal, without stopping at the first
/// difference.
pub fn constant_time_eq(a: &[u8], b: &[u8]) -> (r: bool)
    ensures
        r == (a@ == b@),
{
    if a.len() != b.len() {
        return false;
    }
    let mut diff: u8 = 0;
    let mut i: usize = 0;
    while i < a.len()
        invariant
            i <= a@.len(),
            a@.len() == b@.len(),
            diff == 0 <==> forall|k: int| 0 <= k < i ==> #[trigger] a@[k] == b@[k],
        decreases a@.len() - i,
    {
        let x = a[i];
        let y = b[i];
        let d: u8 = diff | (x ^ y);
        proof {
            assert((d == 0) == (diff == 0 && x == y)) by (bit_vector)
                requires
                    d == diff | (x ^ y),
            ;
            if x != y {
                assert(a@[i as int] != b@[i as int]);
            }
        }
        diff = d;
        i += 1;
    }
    proof {
        if diff == 0 {
            assert(a@ =~= b@);
        }
    }
    diff == 0
}

/// Whether a line is too long to be read as a request.
pub fn line_too_long(line: &str) -> (r: bool)
    ensures
        r == (crate::text::byte_len(line@) > KERNEL_MAX_RECORD_BYTES),
{
    str_byte_len(line) > KERNEL_MAX_RECORD_BYTES
}

/// The model of a `KernelWireRequest`.
pub struct RequestView {
    pub protocol: Seq<char>,
    pub credential: Seq<char>,
    pub envelope: EnvelopeView,
}

impl View for KernelWireRequest {
    type V = RequestView;

    open spec fn view(&self) -> RequestView {
        RequestView {
            protocol: self.protocol@,
            credential: self.credential@,
            envelope: self.envelope@,
        }
    }
}

/// The model of a `KernelWireResponse`. An error is its code and its detail.
pub struct ResponseView {
    pub protocol: Seq<char>,
    pub decision: Option<DecisionView>,
    pub audit_sequence: Option<u64>,
    pub action_digest: Option<Seq<char>>,
    pub error: Option<(Seq<char>, Seq<char>)>,
}

impl View for KernelWireResponse {
    type V = ResponseView;

    open spec fn view(&self) -> ResponseView {
        ResponseView {
            protocol: self.protocol@,
            decision: match self.decision {
                Some(d) => Some(d@),
                None => None,
            },
            audit_sequence: self.audit_sequence,
            action_digest: match self.action_digest {
                Some(d) => Some(d@),
                None => None,
            },
            error: match self.error {
                Some(e) => Some((e.code@, e.detail@)),
                None => None,
            },
        }
    }
}

/// The response that carries an error.
pub open spec fn error_response(code: Seq<char>, detail: Seq<char>) -> ResponseView {
    ResponseView {
        protocol: KERNEL_WIRE_PROTOCOL@,
        decision: None,
        audit_sequence: None,
        action_digest: None,
        error: Some((code, detail)),
    }
}

impl KernelView {
    /// The kernel after a rejection on the transport was recorded.
    pub open spec fn rejected(
        self,
        session_id: Seq<char>,
        detail: Seq<char>,
        id: u128,
        timestamp_ms: i64,
    ) -> KernelView {
        let event = event_of(
            id,
            timestamp_ms,
            ActorView::Kernel,
            AuditEventKind::TransportRejected,
            session_id,
            "none"@,
            None,
            detail,
        );
        KernelView { events: self.events.push(linked(self.events, event)), ..self }
    }

    /// What a request does to a kernel and how it is answered: another protocol
    /// is refused; so is a wrong credential, and the rejection is recorded;
    /// anything else is evaluated.
    pub open spec fn answered(self, request: RequestView, expected: Seq<char>, r: Readings) -> (
        KernelView,
        ResponseView,
    ) {
        if request.protocol != KERNEL_WIRE_PROTOCOL@ {
            (self, error_response("protocol_mismatch"@, "expected "@ + KERNEL_WIRE_PROTOCOL@))
        } else if request.credential != expected {
            (
                self.rejected(
                    request.envelope.session_id,
                    "bad kernel credential"@,
                    r.proposed_id,
                    r.proposed_at,
                ),
                error_response("authentication_failed"@, "bad credential"@),
            )
        } else {
            (
                self.evaluated(request.envelope, r),
                ResponseView {
                    protocol: KERNEL_WIRE_PROTOCOL@,
                    decision: Some(self.decide(request.envelope, r)),
                    audit_sequence: Some((self.events.len() + 1) as u64),
                    action_digest: Some(
                        match request.envelope.digest() {
                            Ok(x) => x,
                            Err(_) => "none"@,
                        },
                    ),
                    error: None,
                },
            )
        }
    }
}

/// Records that a peer was turned away because of what the operating system
/// says of it.
pub fn reject_peer(kernel: &mut LocalKernel)
    ensures
        exists|id: u128, at: i64|
            final(kernel)@ == #[trigger] old(kernel)@.rejected(
                ""@,
                "peer credential validation failed"@,
                id,
                at,
            ),
        old(kernel)@.log_verifies() ==> final(kernel)@.log_verifies(),
{
    reject(kernel, random_uuid(), now_ms(), "", "peer credential validation failed");
}

/// Refuses a line that is too long, and records the rejection. The connection
/// ends with it.
pub fn refuse_long_line(kernel: &mut LocalKernel) -> (r: KernelWireResponse)
    ensures
        r@ == error_response("record_too_large"@, "record exceeds 1 MiB"@),
        exists|id: u128, at: i64|
            final(kernel)@ == #[trigger] old(kernel)@.rejected(
                ""@,
                "wire record exceeded size limit"@,
                id,
                at,
            ),
        old(kernel)@.log_verifies() ==> final(kernel)@.log_verifies(),
{
    reject(kernel, random_uuid(), now_ms(), "", "wire record exceeded size limit");
    KernelWireResponse::err("record_too_large", "record exceeds 1 MiB".to_owned())
}

/// Refuses a line that is no request, for the given reason.
pub fn refuse_malformed(reason: String) -> (r: KernelWireResponse)
    ensures
        r@ == error_response("malformed_request"@, reason@),
{
    KernelWireResponse::err("malformed_request", reason)
}

fn reject(kernel: &mut LocalKernel, id: u128, at: i64, session_id: &str, detail: &str)
    ensures
        final(kernel)@ == old(kernel)@.rejected(session_id@, detail@, id, at),
        old(kernel)@.log_verifies() ==> final(kernel)@.log_verifies(),
{
    let _ = kernel.audit(
        id,
        at,
        AuditActor::Kernel,
        AuditEventKind::TransportRejected,
        session_id,
        "none",
        None,
        detail.to_owned(),
    );
}

/// Answers a request, with what the clock and the identifier source gave.
pub fn answer_at(
    kernel: &mut LocalKernel,
    request: &KernelWireRequest,
    expected_credential: &str,
    readings: Readings,
) -> (r: KernelWireResponse)
    requires
        ascending_keys(request.envelope.arguments@),
    ensures
        (final(kernel)@, r@) == old(kernel)@.answered(request@, expected_credential@, readings),
        old(kernel)@.log_verifies() ==> final(kernel)@.log_verifies(),
{
    if !str_eq(request.protocol.as_str(), KERNEL_WIRE_PROTOCOL) {
        return KernelWireResponse::err("protocol_mismatch", concat("expected ", KERNEL_WIRE_PROTOCOL));
    }
    if !credentials_match(request.credential.as_str(), expected_credential) {
        reject(
            kernel,
            readings.proposed_id,
            readings.proposed_at,
            request.envelope.session_id.as_str(),
            "bad kernel credential",
        );
        return KernelWireResponse::err("authentication_failed", "bad credential".to_owned());
    }
    let action_digest = match request.envelope.digest() {
        Ok(d) => d,
        Err(_) => "none".to_owned(),
    };
    match kernel.evaluate_at(&request.envelope, readings) {
        Ok((decision, sequence)) => KernelWireResponse::ok(decision, sequence, action_digest),
        Err(e) => KernelWireResponse::err("kernel_error", e.message()),
    }
}

/// Answers a request.
pub fn answer(kernel: &mut LocalKernel, request: &KernelWireRequest, expected_credential: &str) -> (r:
    KernelWireResponse)
    requires
        ascending_keys(request.envelope.arguments@),
    ensures
        exists|readings: Readings|
            (final(kernel)@, r@) == #[trigger] old(kernel)@.answered(
                request@,
                expected_credential@,
                readings,
            ),
        old(kernel)@.log_verifies() ==> final(kernel)@.log_verifies(),
{
    let readings = Readings::take();
    answer_at(kernel, request, expected_credential, readings)
}

/// Whatever a kernel does keeps its audit log verifiable: a rejection on the
/// transport, an answer of any kind, and the issue of a lease.
pub proof fn the_audit_log_stays_verifiable(
    kernel: KernelView,
    request: RequestView,
    expected: Seq<char>,
    r: Readings,
    session_id: Seq<char>,
    detail: Seq<char>,
    parent: LeaseId,
    id: LeaseId,
    prefixes: Seq<Seq<char>>,
    verbs: Seq<Seq<char>>,
    now: i64,
    expires_at_ms: i64,
)
    requires
        kernel.log_verifies(),
        kernel.events.len() < u64::MAX,
    ensures
        kernel.rejected(session_id, detail, r.proposed_id, r.proposed_at).log_verifies(),
        kernel.answered(request, expected, r).0.log_verifies(),
        kernel.root_issued(id, session_id, prefixes, verbs, now, expires_at_ms).log_verifies(),
        kernel.child_issued(parent, id, session_id, prefixes, verbs, now, expires_at_ms).0.log_verifies(),
{
    rejection_keeps_the_audit_chain(
        kernel,
        session_id,
        detail,
        r.proposed_id,
        r.proposed_at,
    );
    rejection_keeps_the_audit_chain(
        kernel,
        request.envelope.session_id,
        "bad kernel credential"@,
        r.proposed_id,
        r.proposed_at,
    );
    evaluation_keeps_the_audit_chain(kernel, request.envelope, r);
}

proof fn rejection_keeps_the_audit_chain(
    kernel: KernelView,
    session_id: Seq<char>,
    detail: Seq<char>,
    id: u128,
    at: i64,
)
    requires
        kernel.log_verifies(),
        kernel.events.len() < u64::MAX,
    ensures
        kernel.rejected(session_id, detail, id, at).log_verifies(),
{
    append_keeps_the_chain(
        kernel.events,
        event_of(
            id,
            at,
            ActorView::Kernel,
            AuditEventKind::TransportRejected,
            session_id,
            "none"@,
            None,
            detail,
        ),
    );
}

/// A decision is given on a request of this protocol with the expected
/// credential, and on no other. Whatever is refused is answered with an error
/// alone, uses up no nonce and changes no lease.
pub proof fn refused_requests_decide_nothing(
    kernel: KernelView,
    request: RequestView,
    expected: Seq<char>,
    r: Readings,
)
    ensures
        ({
            let (after, response) = kernel.answered(request, expected, r);
            let admitted = request.protocol == KERNEL_WIRE_PROTOCOL@ && request.credential
                == expected;
            &&& response.decision is Some <==> admitted
            &&& response.error is Some <==> !admitted
            &&& !admitted ==> {
                &&& response.audit_sequence is None
                &&& response.action_digest is None
                &&& after.leases == kernel.leases
                &&& after.nonces == kernel.nonces
            }
        }),
{
}

fn credentials_match(a: &str, b: &str) -> (r: bool)
    ensures
        r == (a@ == b@),
{
    proof {
        vstd::utf8::encode_utf8_decode_utf8(a@);
        vstd::utf8::encode_utf8_decode_utf8(b@);
    }
    constant_time_eq(a.as_bytes(), b.as_bytes())
}

/// Direct access to a kernel in the same process.
#[derive(Debug)]
pub struct InProcessKernel {
    kernel: LocalKernel,
}

impl View for InProcessKernel {
    type V = KernelView;

    closed spec fn view(&self) -> KernelView {
        self.kernel@
    }
}

impl InProcessKernel {
    /// Access to the given kernel.
    pub fn new(kernel: LocalKernel) -> (r: InProcessKernel)
        ensures
            r@ == kernel@,
    {
        InProcessKernel { kernel }
    }

    /// One request and its response. A wrong credential is refused before the
    /// envelope is looked at.
    pub fn round_trip(
        &mut self,
        credential: &str,
        expected_credential: &str,
        envelope: &ActionEnvelope,
    ) -> (r: Result<KernelWireResponse, WireError>)
        requires
            ascending_keys(envelope.arguments@),
        ensures
            match r {
                Err(e) => credential@ != expected_credential@ && e.code@
                    == "authentication_failed"@ && e.detail@ == "bad credential"@ && final(self)@
                    == old(self)@,
                Ok(w) => credential@ == expected_credential@ && w.protocol@
                    == KERNEL_WIRE_PROTOCOL@ && w.error is None && w.audit_sequence == Some(
                    (old(self)@.events.len() + 1) as u64,
                ) && (w.action_digest matches Some(d) && d@ == (match envelope@.digest() {
                    Ok(x) => x,
                    Err(_) => "none"@,
                })) && exists|readings: Readings|
                    (w.decision matches Some(d) && d@ == old(self)@.decide(envelope@, readings))
                        && final(self)@ == #[trigger] old(self)@.evaluated(envelope@, readings),
            },
            old(self)@.log_verifies() ==> final(self)@.log_verifies(),
    {
        if !credentials_match(credential, expected_credential) {
            return Err(
                WireError {
                    code: "authentication_failed".to_owned(),
                    detail: "bad credential".to_owned(),
                },
            );
        }
        let action_digest = match envelope.digest() {
            Ok(d) => d,
            Err(_) => "none".to_owned(),
        };
        match self.kernel.evaluate_with_verdict_sequence(envelope) {
            Ok((decision, sequence)) => Ok(
                KernelWireResponse::ok(decision, sequence, action_digest),
            ),
            Err(e) => Err(WireError { code: "kernel_error".to_owned(), detail: e.message() }),
        }
    }
}

/// A request in this protocol with the right credential is answered with the
/// kernel's own decision on its envelope, the number of the verdict in the log
/// and the digest of the action. One with a wrong credential leaves one event
/// behind, a rejection on the transport under its session, and one in another
/// protocol leaves none.
pub proof fn requests_are_answered_by_the_kernel(
    kernel: KernelView,
    request: RequestView,
    expected: Seq<char>,
    r: Readings,
)
    requires
        kernel.events.len() < u64::MAX,
    ensures
        ({
            let (after, response) = kernel.answered(request, expected, r);
            let n = kernel.events.len();
            let known = request.protocol == KERNEL_WIRE_PROTOCOL@;
            &&& known && request.credential == expected ==> {
                &&& after == kernel.evaluated(request.envelope, r)
                &&& response.decision == Some(kernel.decide(request.envelope, r))
                &&& response.audit_sequence == Some((n + 1) as u64)
                &&& request.envelope.digest() matches Ok(d) ==> response.action_digest == Some(d)
            }
            &&& known && request.credential != expected ==> {
                &&& after.events.len() == n + 1
                &&& after.events.drop_last() == kernel.events
                &&& after.events.last().kind == AuditEventKind::TransportRejected
                &&& after.events.last().session_id == request.envelope.session_id
                &&& after.events.last().actor == ActorView::Kernel
                &&& response.error matches Some(e) && e.0 == "authentication_failed"@
            }
            &&& !known ==> {
                &&& after == kernel
                &&& response.error matches Some(e) && e.0 == "protocol_mismatch"@
            }
        }),
{
    let (after, _) = kernel.answered(request, expected, r);
    if request.protocol == KERNEL_WIRE_PROTOCOL@ && request.credential != expected {
        assert(after.events.drop_last() =~= kernel.events);
    }
}

/// A process number and its form with a sign differ by a whole number of turns
/// of 32 bits, so that no two numbers share a form.
pub proof fn process_numbers_wrap_around(p: u32, q: u32)
    ensures
        -0x8000_0000 <= wrapped_pid(p) <= 0x7fff_ffff,
        (p - wrapped_pid(p)) % 0x1_0000_0000 == 0,
        wrapped_pid(p) == wrapped_pid(q) ==> p == q,
{
}

} // verus!
