//! The boundary between the agent process and the kernel: the versioned
//! contracts, their canonical encoding, the audit log and the kernel itself.

pub mod audit;
pub mod bridge;
pub mod decision;
pub mod envelope;
pub mod kernel;
pub mod sandbox;
pub mod wire;

pub use audit::{AuditActor, AuditEvent, AuditEventKind, AuditLog};
pub use bridge::{BridgeCancellation, BridgeEvent, BridgeToolRequest};
pub use decision::{DecisionOutcome, DenyReason, Obligation, PolicyDecision};
pub use envelope::{
    canonical_path, path_prefix_covers, ActionEnvelope, EffectClasses, InputRef, LeaseId,
    NetworkResource, PathResource, PathRights, ResourceSet, SecretRef, ToolRef,
};
pub use kernel::{Kernel, LeaseRecord, LocalKernel, LocalKernelConfig};
pub use sandbox::{
    ExportedFile, NullSandboxDriver, OutputChunk, SandboxError, SandboxHandle, SandboxOutcome,
    SandboxProfile, SandboxQuotas, SandboxSpec, StreamStats,
};
pub use wire::{
    answer, constant_time_eq, refuse_long_line, refuse_malformed, reject_peer, InProcessKernel,
    KernelWireRequest, KernelWireResponse, PeerPolicy, WireError,
};

use crate::digest::{sha256_hex_str, text_digest};
use crate::json::{canonical, Json, JsonView};
use crate::text::{concat, decimal, surround, u64_text};
use vstd::prelude::*;

verus! {

/// Version of the action envelope contract.
pub const ACTION_ENVELOPE_VERSION: u32 = 1;

/// Version of the policy decision contract.
pub const POLICY_DECISION_VERSION: u32 = 2;

/// Version of the bridge contract.
pub const PIBRIDGE_VERSION: u32 = 1;

/// Version of the audit event contract.
pub const AUDIT_EVENT_VERSION: u32 = 1;

/// Version of the sandbox driver contract.
pub const SANDBOX_DRIVER_VERSION: u32 = 1;

/// The longest record on the kernel wire, in bytes.
pub const KERNEL_MAX_RECORD_BYTES: usize = 1048576;

/// The protocol name on the kernel wire.
pub const KERNEL_WIRE_PROTOCOL: &'static str = "lumen-kernel/1";

/// Why a value does not cross the boundary.
#[derive(Clone, Debug, PartialEq, Eq)]
pub enum BoundaryError {
    UnsupportedVersion { expected: u32, got: u32 },
    InvalidEnvelope(String),
    NonCanonicalValue(String),
    AuditChainBroken(String),
    Serialization(String),
}

/// The model of a `BoundaryError`.
pub enum BoundaryErrorView {
    UnsupportedVersion { expected: u32, got: u32 },
    InvalidEnvelope(Seq<char>),
    NonCanonicalValue(Seq<char>),
    AuditChainBroken(Seq<char>),
    Serialization(Seq<char>),
}

impl View for BoundaryError {
    type V = BoundaryErrorView;

    open spec fn view(&self) -> BoundaryErrorView {
        match *self {
            BoundaryError::UnsupportedVersion { expected, got } =>
                BoundaryErrorView::UnsupportedVersion { expected, got },
            BoundaryError::InvalidEnvelope(s) => BoundaryErrorView::InvalidEnvelope(s@),
            BoundaryError::NonCanonicalValue(s) => BoundaryErrorView::NonCanonicalValue(s@),
            BoundaryError::AuditChainBroken(s) => BoundaryErrorView::AuditChainBroken(s@),
            BoundaryError::Serialization(s) => BoundaryErrorView::Serialization(s@),
        }
    }
}

impl BoundaryErrorView {
    /// The message of the error.
    pub open spec fn message(self) -> Seq<char> {
        match self {
            BoundaryErrorView::UnsupportedVersion { expected, got } =>
                "unsupported contract version: expected "@ + decimal(expected as nat) + ", got "@
                    + decimal(got as nat),
            BoundaryErrorView::InvalidEnvelope(s) => "envelope failed validation: "@ + s,
            BoundaryErrorView::NonCanonicalValue(s) => "value is not in canonical form: "@ + s,
            BoundaryErrorView::AuditChainBroken(s) => "audit chain broken: "@ + s,
            BoundaryErrorView::Serialization(s) => "serialization failed: "@ + s,
        }
    }
}

impl BoundaryError {
    /// The message of the error.
    pub fn message(&self) -> (r: String)
        ensures
            r@ == self@.message(),
    {
        match self {
            BoundaryError::UnsupportedVersion { expected, got } => {
                let mut out = surround(
                    "unsupported contract version: expected ",
                    u64_text(*expected as u64).as_str(),
                    ", got ",
                );
                out.append(u64_text(*got as u64).as_str());
                out
            },
            BoundaryError::InvalidEnvelope(s) => concat(
                "envelope failed validation: ",
                s.as_str(),
            ),
            BoundaryError::NonCanonicalValue(s) => concat(
                "value is not in canonical form: ",
                s.as_str(),
            ),
            BoundaryError::AuditChainBroken(s) => concat("audit chain broken: ", s.as_str()),
            BoundaryError::Serialization(s) => concat("serialization failed: ", s.as_str()),
        }
    }
}

/// Why the kernel could not answer.
#[derive(Clone, Debug, PartialEq, Eq)]
pub enum KernelError {
    Transport(String),
    PeerRejected(String),
    AuthenticationFailed,
    MalformedRequest(String),
    Boundary(BoundaryError),
    Internal(String),
}

/// The model of a `KernelError`.
pub enum KernelErrorView {
    Transport(Seq<char>),
    PeerRejected(Seq<char>),
    AuthenticationFailed,
    MalformedRequest(Seq<char>),
    Boundary(BoundaryErrorView),
    Internal(Seq<char>),
}

impl View for KernelError {
    type V = KernelErrorView;

    open spec fn view(&self) -> KernelErrorView {
        match *self {
            KernelError::Transport(s) => KernelErrorView::Transport(s@),
            KernelError::PeerRejected(s) => KernelErrorView::PeerRejected(s@),
            KernelError::AuthenticationFailed => KernelErrorView::AuthenticationFailed,
            KernelError::MalformedRequest(s) => KernelErrorView::MalformedRequest(s@),
            KernelError::Boundary(e) => KernelErrorView::Boundary(e@),
            KernelError::Internal(s) => KernelErrorView::Internal(s@),
        }
    }
}

impl KernelErrorView {
    /// The message of the error.
    pub open spec fn message(self) -> Seq<char> {
        match self {
            KernelErrorView::Transport(s) => "kernel transport error: "@ + s,
            KernelErrorView::PeerRejected(s) => "peer failed validation: "@ + s,
            KernelErrorView::AuthenticationFailed => "request failed authentication"@,
            KernelErrorView::MalformedRequest(s) => "malformed request: "@ + s,
            KernelErrorView::Boundary(e) => e.message(),
            KernelErrorView::Internal(s) => "internal kernel error: "@ + s,
        }
    }
}

impl KernelError {
    /// The message of the error.
    pub fn message(&self) -> (r: String)
        ensures
            r@ == self@.message(),
    {
        match self {
            KernelError::Transport(s) => concat("kernel transport error: ", s.as_str()),
            KernelError::PeerRejected(s) => concat("peer failed validation: ", s.as_str()),
            KernelError::AuthenticationFailed => "request failed authentication".to_owned(),
            KernelError::MalformedRequest(s) => concat("malformed request: ", s.as_str()),
            KernelError::Boundary(e) => e.message(),
            KernelError::Internal(s) => concat("internal kernel error: ", s.as_str()),
        }
    }
}

/// The canonical text of a value. Only integers are admitted as numbers.
pub open spec fn canonical_form(v: JsonView) -> Result<Seq<char>, BoundaryErrorView> {
    match canonical(v) {
        Ok(t) => Ok(t),
        Err(n) => Err(
            BoundaryErrorView::NonCanonicalValue("non-integer number is not canonical: "@ + n),
        ),
    }
}

/// The digest of the canonical text.
pub open spec fn digest_of(v: JsonView) -> Result<Seq<char>, BoundaryErrorView> {
    match canonical_form(v) {
        Ok(t) => Ok(text_digest(t)),
        Err(e) => Err(e),
    }
}

/// The model of an outcome that gives text.
pub open spec fn text_result(r: Result<String, BoundaryError>) -> Result<
    Seq<char>,
    BoundaryErrorView,
> {
    match r {
        Ok(t) => Ok(t@),
        Err(e) => Err(e@),
    }
}

/// The model of the outcome of a check.
pub open spec fn unit_result(r: Result<(), BoundaryError>) -> Result<(), BoundaryErrorView> {
    match r {
        Ok(_) => Ok(()),
        Err(e) => Err(e@),
    }
}

/// The canonical text of a value: object keys in ascending order at every
/// level, no insignificant whitespace, integers only.
pub fn canonical_json(value: &Json) -> (r: Result<String, BoundaryError>)
    ensures
        text_result(r) == canonical_form(value@),
{
    match value.canonical_text() {
        Ok(t) => Ok(t),
        Err(n) => Err(
            BoundaryError::NonCanonicalValue(
                concat("non-integer number is not canonical: ", n.as_str()),
            ),
        ),
    }
}

/// The hexadecimal SHA-256 digest of the canonical text.
pub fn canonical_digest(value: &Json) -> (r: Result<String, BoundaryError>)
    ensures
        text_result(r) == digest_of(value@),
{
    match canonical_json(value) {
        Ok(t) => Ok(sha256_hex_str(t.as_str())),
        Err(e) => Err(e),
    }
}

/// Two objects with the same members have the same digest, whatever the order
/// of the members.
pub proof fn digest_ignores_member_order(
    a: Seq<(Seq<char>, JsonView)>,
    b: Seq<(Seq<char>, JsonView)>,
)
    requires
        crate::json::unique_keys(a),
        crate::json::unique_keys(b),
        forall|m: (Seq<char>, JsonView)| #[trigger] a.contains(m) <==> b.contains(m),
    ensures
        digest_of(JsonView::Object(a)) == digest_of(JsonView::Object(b)),
{
    crate::json::canonical_ignores_member_order(a, b);
}

} // verus!
