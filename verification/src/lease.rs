//! Leases: signed capabilities whose delegation only ever narrows them.

pub mod action;
pub mod authorize;
pub mod chain;
pub mod mint;
pub mod session;

use crate::budget::{
    budget_extensional, Budget, BudgetDimension, BudgetError, BudgetErrorView,
};
use crate::canonical::encode::{same_destination, scope_is_integral, scopes_are_told_apart};
use crate::canonical::scope::{ResourceScope, ScopeErrorView, ScopeSubsetError, ScopeView};
use crate::canonical::{CanonicalError, CanonicalErrorView};
use crate::digest::{sha256_hex_str, text_digest};
use crate::json::{
    canonical, canonical_iff_integral, integral, integral_none, integral_push, member_models,
    no_fields, no_members, object, put, string, Json, JsonView,
};
use crate::keys::{hex_signature, sign_hex, signed_by, verify_hex, SigningKey, VerifyingKey};
use crate::nonce::{NonceError, NonceErrorView};
use crate::pi_boundary::{canonical_json, BoundaryError, BoundaryErrorView};
use crate::text::{decimal, decimal_int, i64_text, u64_text};
use vstd::prelude::*;
use vstd::utf8::encode_utf8;

verus! {

/// Version of the lease contract.
pub const LEASE_PROTOCOL_VERSION: u32 = 2;

/// The longest lifetime of a root lease: 30 days.
pub const MAX_ROOT_LEASE_LIFETIME_MS: i64 = 2592000000;

/// The default lifetime of a session: 24 hours.
pub const DEFAULT_SESSION_MAX_LIFETIME_MS: i64 = 86400000;

/// The limits of a lease.
#[derive(Clone, Copy, Debug, PartialEq, Eq)]
pub struct LeaseLimits {
    pub not_before_ms: i64,
    pub expires_at_ms: i64,
    pub budget: Budget,
    pub max_executions: Option<u64>,
    pub single_use: bool,
}

/// A signed lease. The signature covers every field but itself.
#[derive(Debug, PartialEq, Eq)]
pub struct LeaseDocument {
    pub protocol_version: u32,
    pub lease_id: String,
    pub parent_id: Option<String>,
    pub subject: String,
    /// The issuer's key for roots, the parent's subject for children.
    pub issuer_key_id: String,
    pub issued_at_ms: i64,
    pub scope: ResourceScope,
    pub limits: LeaseLimits,
    pub depth: u32,
    pub depth_limit: u32,
    pub lease_nonce: String,
    /// The digest of the one action that a human approved, for a single-use
    /// lease.
    pub approved_action_digest: Option<String>,
    /// The signature, in hexadecimal.
    pub signature: String,
}

/// The model of a `LeaseDocument`.
pub struct LeaseView {
    pub protocol_version: u32,
    pub lease_id: Seq<char>,
    pub parent_id: Option<Seq<char>>,
    pub subject: Seq<char>,
    pub issuer_key_id: Seq<char>,
    pub issued_at_ms: i64,
    pub scope: ScopeView,
    pub limits: LeaseLimits,
    pub depth: u32,
    pub depth_limit: u32,
    pub lease_nonce: Seq<char>,
    pub approved_action_digest: Option<Seq<char>>,
    pub signature: Seq<char>,
}

/// The model of an optional string.
pub open spec fn optional(s: Option<String>) -> Option<Seq<char>> {
    match s {
        Some(x) => Some(x@),
        None => None,
    }
}

impl View for LeaseDocument {
    type V = LeaseView;

    open spec fn view(&self) -> LeaseView {
        LeaseView {
            protocol_version: self.protocol_version,
            lease_id: self.lease_id@,
            parent_id: optional(self.parent_id),
            subject: self.subject@,
            issuer_key_id: self.issuer_key_id@,
            issued_at_ms: self.issued_at_ms,
            scope: self.scope@,
            limits: self.limits,
            depth: self.depth,
            depth_limit: self.depth_limit,
            lease_nonce: self.lease_nonce@,
            approved_action_digest: optional(self.approved_action_digest),
            signature: self.signature@,
        }
    }
}

/// Why a lease is not minted, or does not stand.
#[derive(Debug, PartialEq, Eq)]
pub enum LeaseError {
    VersionMismatch(u32),
    BadSignature,
    Encoding(String),
    Canonical(CanonicalError),
    ProtocolCanonical(BoundaryError),
    Subset(ScopeSubsetError),
    Budget(BudgetError),
    Nonce(NonceError),
    SubjectNotDescendant(String, String),
    SubjectInactive(String),
    ExpiryTooWide(i64, i64),
    NotBeforeTooEarly(i64, i64),
    InvalidTimeBounds(i64, i64),
    IssuedInFuture(i64, i64),
    AlreadyExpired,
    DepthViolation(u32, u32),
    DepthLimitTooWide(u32, u32),
    SingleUseDelegation,
    Revoked(String),
    NotFound(String),
    ChainBreak(String, String),
    ChainCycle,
    IssuerMismatch(String, String),
    UnknownIssuerGeneration(String),
    KilledIssuerGeneration(String),
    ExceedsMaxLifetime(i64, i64),
    AlreadyConsumed(String),
    NotSingleUse(String),
    BadEnvelope(String),
    ActionExpired,
    NoCoveringLease,
    UnknownKey(String),
}

/// The model of a `LeaseError`.
pub enum LeaseErrorView {
    VersionMismatch(u32),
    BadSignature,
    Encoding(Seq<char>),
    Canonical(CanonicalErrorView),
    ProtocolCanonical(BoundaryErrorView),
    Subset(ScopeErrorView),
    Budget(BudgetErrorView),
    Nonce(NonceErrorView),
    SubjectNotDescendant(Seq<char>, Seq<char>),
    SubjectInactive(Seq<char>),
    ExpiryTooWide(i64, i64),
    NotBeforeTooEarly(i64, i64),
    InvalidTimeBounds(i64, i64),
    IssuedInFuture(i64, i64),
    AlreadyExpired,
    DepthViolation(u32, u32),
    DepthLimitTooWide(u32, u32),
    SingleUseDelegation,
    Revoked(Seq<char>),
    NotFound(Seq<char>),
    ChainBreak(Seq<char>, Seq<char>),
    ChainCycle,
    IssuerMismatch(Seq<char>, Seq<char>),
    UnknownIssuerGeneration(Seq<char>),
    KilledIssuerGeneration(Seq<char>),
    ExceedsMaxLifetime(i64, i64),
    AlreadyConsumed(Seq<char>),
    NotSingleUse(Seq<char>),
    BadEnvelope(Seq<char>),
    ActionExpired,
    NoCoveringLease,
    UnknownKey(Seq<char>),
}

impl View for LeaseError {
    type V = LeaseErrorView;

    open spec fn view(&self) -> LeaseErrorView {
        match *self {
            LeaseError::VersionMismatch(a) => LeaseErrorView::VersionMismatch(a),
            LeaseError::BadSignature => LeaseErrorView::BadSignature,
            LeaseError::Encoding(a) => LeaseErrorView::Encoding(a@),
            LeaseError::Canonical(a) => LeaseErrorView::Canonical(a@),
            LeaseError::ProtocolCanonical(a) => LeaseErrorView::ProtocolCanonical(a@),
            LeaseError::Subset(a) => LeaseErrorView::Subset(a@),
            LeaseError::Budget(a) => LeaseErrorView::Budget(a@),
            LeaseError::Nonce(a) => LeaseErrorView::Nonce(a@),
            LeaseError::SubjectNotDescendant(a, b) => LeaseErrorView::SubjectNotDescendant(a@, b@),
            LeaseError::SubjectInactive(a) => LeaseErrorView::SubjectInactive(a@),
            LeaseError::ExpiryTooWide(a, b) => LeaseErrorView::ExpiryTooWide(a, b),
            LeaseError::NotBeforeTooEarly(a, b) => LeaseErrorView::NotBeforeTooEarly(a, b),
            LeaseError::InvalidTimeBounds(a, b) => LeaseErrorView::InvalidTimeBounds(a, b),
            LeaseError::IssuedInFuture(a, b) => LeaseErrorView::IssuedInFuture(a, b),
            LeaseError::AlreadyExpired => LeaseErrorView::AlreadyExpired,
            LeaseError::DepthViolation(a, b) => LeaseErrorView::DepthViolation(a, b),
            LeaseError::DepthLimitTooWide(a, b) => LeaseErrorView::DepthLimitTooWide(a, b),
            LeaseError::SingleUseDelegation => LeaseErrorView::SingleUseDelegation,
            LeaseError::Revoked(a) => LeaseErrorView::Revoked(a@),
            LeaseError::NotFound(a) => LeaseErrorView::NotFound(a@),
            LeaseError::ChainBreak(a, b) => LeaseErrorView::ChainBreak(a@, b@),
            LeaseError::ChainCycle => LeaseErrorView::ChainCycle,
            LeaseError::IssuerMismatch(a, b) => LeaseErrorView::IssuerMismatch(a@, b@),
            LeaseError::UnknownIssuerGeneration(a) => LeaseErrorView::UnknownIssuerGeneration(a@),
            LeaseError::KilledIssuerGeneration(a) => LeaseErrorView::KilledIssuerGeneration(a@),
            LeaseError::ExceedsMaxLifetime(a, b) => LeaseErrorView::ExceedsMaxLifetime(a, b),
            LeaseError::AlreadyConsumed(a) => LeaseErrorView::AlreadyConsumed(a@),
            LeaseError::NotSingleUse(a) => LeaseErrorView::NotSingleUse(a@),
            LeaseError::BadEnvelope(a) => LeaseErrorView::BadEnvelope(a@),
            LeaseError::ActionExpired => LeaseErrorView::ActionExpired,
            LeaseError::NoCoveringLease => LeaseErrorView::NoCoveringLease,
            LeaseError::UnknownKey(a) => LeaseErrorView::UnknownKey(a@),
        }
    }
}

impl LeaseErrorView {
    /// The message of the error.
    pub open spec fn message(self) -> Seq<char> {
        match self {
            LeaseErrorView::VersionMismatch(a) =>
                "lease protocol version "@ + decimal(a as nat) + " unsupported"@,
            LeaseErrorView::BadSignature => "bad signature"@,
            LeaseErrorView::Encoding(a) => "encoding error: "@ + a,
            LeaseErrorView::Canonical(a) => "canonicalization failed: "@ + a.message(),
            LeaseErrorView::ProtocolCanonical(a) => "protocol canonicalization failed: "@ + a.message(),
            LeaseErrorView::Subset(a) => "subset proof failed: "@ + a.message(),
            LeaseErrorView::Budget(a) => "budget error: "@ + a.message(),
            LeaseErrorView::Nonce(a) => "nonce error: "@ + a.message(),
            LeaseErrorView::SubjectNotDescendant(a, b) =>
                "subject "@ + a + " is not an active descendant of "@ + b,
            LeaseErrorView::SubjectInactive(a) => "subject session "@ + a + " is not active"@,
            LeaseErrorView::ExpiryTooWide(a, b) =>
                "child expiry "@ + decimal_int(a as int) + " exceeds parent expiry "@
                    + decimal_int(b as int),
            LeaseErrorView::NotBeforeTooEarly(a, b) =>
                "child not-before "@ + decimal_int(a as int) + " precedes parent not-before "@
                    + decimal_int(b as int),
            LeaseErrorView::InvalidTimeBounds(a, b) =>
                "invalid time bounds: not_before "@ + decimal_int(a as int) + " >= expires_at "@
                    + decimal_int(b as int),
            LeaseErrorView::IssuedInFuture(a, b) =>
                "issued_at_ms "@ + decimal_int(a as int) + " is after the authority time "@
                    + decimal_int(b as int) + ": minting happens now"@,
            LeaseErrorView::AlreadyExpired => "lease already expired at issuance"@,
            LeaseErrorView::DepthViolation(a, b) =>
                "depth "@ + decimal(a as nat) + " violates parent depth limit "@ + decimal(b as nat),
            LeaseErrorView::DepthLimitTooWide(a, b) =>
                "child depth limit "@ + decimal(a as nat) + " exceeds parent depth limit "@
                    + decimal(b as nat),
            LeaseErrorView::SingleUseDelegation => "single-use leases cannot delegate"@,
            LeaseErrorView::Revoked(a) => "lease "@ + a + " is revoked"@,
            LeaseErrorView::NotFound(a) => "lease "@ + a + " not found"@,
            LeaseErrorView::ChainBreak(a, b) => "chain break: expected parent "@ + a + ", found "@ + b,
            LeaseErrorView::ChainCycle => "chain too deep or cyclic"@,
            LeaseErrorView::IssuerMismatch(a, b) => "issuer "@ + a + " does not match parent subject "@ + b,
            LeaseErrorView::UnknownIssuerGeneration(a) => "unknown issuer key generation "@ + a,
            LeaseErrorView::KilledIssuerGeneration(a) => "issuer key generation "@ + a + " was killed"@,
            LeaseErrorView::ExceedsMaxLifetime(a, b) =>
                "root lease lifetime "@ + decimal_int(a as int) + "ms exceeds maximum "@
                    + decimal_int(b as int) + "ms"@,
            LeaseErrorView::AlreadyConsumed(a) => "one-shot lease "@ + a + " already consumed"@,
            LeaseErrorView::NotSingleUse(a) => "lease "@ + a + " is not single-use"@,
            LeaseErrorView::BadEnvelope(a) => "envelope invalid: "@ + a,
            LeaseErrorView::ActionExpired => "action expired"@,
            LeaseErrorView::NoCoveringLease => "no covering lease for action"@,
            LeaseErrorView::UnknownKey(a) => "unknown session key for "@ + a,
        }
    }
}

impl LeaseError {
    /// The message of the error.
    pub fn message(&self) -> (r: String)
        ensures
            r@ == self@.message(),
    {
        match self {
            LeaseError::VersionMismatch(a) => {
                let mut out = "lease protocol version ".to_owned();
                out.append(u64_text(*a as u64).as_str());
                out.append(" unsupported");
                out
            },
            LeaseError::BadSignature => "bad signature".to_owned(),
            LeaseError::Encoding(a) => {
                let mut out = "encoding error: ".to_owned();
                out.append(a.as_str());
                out
            },
            LeaseError::Canonical(a) => {
                let mut out = "canonicalization failed: ".to_owned();
                out.append(a.message().as_str());
                out
            },
            LeaseError::ProtocolCanonical(a) => {
                let mut out = "protocol canonicalization failed: ".to_owned();
                out.append(a.message().as_str());
                out
            },
            LeaseError::Subset(a) => {
                let mut out = "subset proof failed: ".to_owned();
                out.append(a.message().as_str());
                out
            },
            LeaseError::Budget(a) => {
                let mut out = "budget error: ".to_owned();
                out.append(a.message().as_str());
                out
            },
            LeaseError::Nonce(a) => {
                let mut out = "nonce error: ".to_owned();
                out.append(a.message().as_str());
                out
            },
            LeaseError::SubjectNotDescendant(a, b) => {
                let mut out = "subject ".to_owned();
                out.append(a.as_str());
                out.append(" is not an active descendant of ");
                out.append(b.as_str());
                out
            },
            LeaseError::SubjectInactive(a) => {
                let mut out = "subject session ".to_owned();
                out.append(a.as_str());
                out.append(" is not active");
                out
            },
            LeaseError::ExpiryTooWide(a, b) => {
                let mut out = "child expiry ".to_owned();
                out.append(i64_text(*a).as_str());
                out.append(" exceeds parent expiry ");
                out.append(i64_text(*b).as_str());
                out
            },
            LeaseError::NotBeforeTooEarly(a, b) => {
                let mut out = "child not-before ".to_owned();
                out.append(i64_text(*a).as_str());
                out.append(" precedes parent not-before ");
                out.append(i64_text(*b).as_str());
                out
            },
            LeaseError::InvalidTimeBounds(a, b) => {
                let mut out = "invalid time bounds: not_before ".to_owned();
                out.append(i64_text(*a).as_str());
                out.append(" >= expires_at ");
                out.append(i64_text(*b).as_str());
                out
            },
            LeaseError::IssuedInFuture(a, b) => {
                let mut out = "issued_at_ms ".to_owned();
                out.append(i64_text(*a).as_str());
                out.append(" is after the authority time ");
                out.append(i64_text(*b).as_str());
                out.append(": minting happens now");
                out
            },
            LeaseError::AlreadyExpired => "lease already expired at issuance".to_owned(),
            LeaseError::DepthViolation(a, b) => {
                let mut out = "depth ".to_owned();
                out.append(u64_text(*a as u64).as_str());
                out.append(" violates parent depth limit ");
                out.append(u64_text(*b as u64).as_str());
                out
            },
            LeaseError::DepthLimitTooWide(a, b) => {
                let mut out = "child depth limit ".to_owned();
                out.append(u64_text(*a as u64).as_str());
                out.append(" exceeds parent depth limit ");
                out.append(u64_text(*b as u64).as_str());
                out
            },
            LeaseError::SingleUseDelegation => "single-use leases cannot delegate".to_owned(),
            LeaseError::Revoked(a) => {
                let mut out = "lease ".to_owned();
                out.append(a.as_str());
                out.append(" is revoked");
                out
            },
            LeaseError::NotFound(a) => {
                let mut out = "lease ".to_owned();
                out.append(a.as_str());
                out.append(" not found");
                out
            },
            LeaseError::ChainBreak(a, b) => {
                let mut out = "chain break: expected parent ".to_owned();
                out.append(a.as_str());
                out.append(", found ");
                out.append(b.as_str());
                out
            },
            LeaseError::ChainCycle => "chain too deep or cyclic".to_owned(),
            LeaseError::IssuerMismatch(a, b) => {
                let mut out = "issuer ".to_owned();
                out.append(a.as_str());
                out.append(" does not match parent subject ");
                out.append(b.as_str());
                out
            },
            LeaseError::UnknownIssuerGeneration(a) => {
                let mut out = "unknown issuer key generation ".to_owned();
                out.append(a.as_str());
                out
            },
            LeaseError::KilledIssuerGeneration(a) => {
                let mut out = "issuer key generation ".to_owned();
                out.append(a.as_str());
                out.append(" was killed");
                out
            },
            LeaseError::ExceedsMaxLifetime(a, b) => {
                let mut out = "root lease lifetime ".to_owned();
                out.append(i64_text(*a).as_str());
                out.append("ms exceeds maximum ");
                out.append(i64_text(*b).as_str());
                out.append("ms");
                out
            },
            LeaseError::AlreadyConsumed(a) => {
                let mut out = "one-shot lease ".to_owned();
                out.append(a.as_str());
                out.append(" already consumed");
                out
            },
            LeaseError::NotSingleUse(a) => {
                let mut out = "lease ".to_owned();
                out.append(a.as_str());
                out.append(" is not single-use");
                out
            },
            LeaseError::BadEnvelope(a) => {
                let mut out = "envelope invalid: ".to_owned();
                out.append(a.as_str());
                out
            },
            LeaseError::ActionExpired => "action expired".to_owned(),
            LeaseError::NoCoveringLease => "no covering lease for action".to_owned(),
            LeaseError::UnknownKey(a) => {
                let mut out = "unknown session key for ".to_owned();
                out.append(a.as_str());
                out
            },
        }
    }
}

/// The model of the outcome of a check.
pub open spec fn lease_unit(r: Result<(), LeaseError>) -> Result<(), LeaseErrorView> {
    match r {
        Ok(_) => Ok(()),
        Err(e) => Err(e@),
    }
}

/// The model of an outcome that gives a lease.
pub open spec fn lease_result(r: Result<LeaseDocument, LeaseError>) -> Result<
    LeaseView,
    LeaseErrorView,
> {
    match r {
        Ok(d) => Ok(d@),
        Err(e) => Err(e@),
    }
}

/// An optional string, or null.
pub open spec fn text_or_null(s: Option<Seq<char>>) -> JsonView {
    match s {
        Some(x) => JsonView::Str(x),
        None => JsonView::Null,
    }
}

/// The granted dimensions of a budget.
pub open spec fn budget_json(b: Budget) -> JsonView {
    JsonView::Object(
        b.entries_from(0).map_values(
            |e: (BudgetDimension, u64)| (e.0.name(), JsonView::Int(e.1 as int)),
        ),
    )
}

/// The JSON value of limits.
pub open spec fn limits_json(l: LeaseLimits) -> JsonView {
    JsonView::Object(
        no_fields().push(("not_before_ms"@, JsonView::Int(l.not_before_ms as int))).push(
            ("expires_at_ms"@, JsonView::Int(l.expires_at_ms as int)),
        ).push(("budget"@, budget_json(l.budget))).push(
            (
                "max_executions"@,
                match l.max_executions {
                    Some(n) => JsonView::Int(n as int),
                    None => JsonView::Null,
                },
            ),
        ).push(("single_use"@, JsonView::Bool(l.single_use))),
    )
}

impl LeaseView {
    /// The JSON value that the signature covers: every field but the
    /// signature.
    pub open spec fn unsigned(self) -> JsonView {
        JsonView::Object(
            no_fields().push(
                ("protocol_version"@, JsonView::Int(self.protocol_version as int)),
            ).push(("lease_id"@, JsonView::Str(self.lease_id))).push(
                ("parent_id"@, text_or_null(self.parent_id)),
            ).push(("subject"@, JsonView::Str(self.subject))).push(
                ("issuer_key_id"@, JsonView::Str(self.issuer_key_id)),
            ).push(("issued_at_ms"@, JsonView::Int(self.issued_at_ms as int))).push(
                ("scope"@, self.scope.json()),
            ).push(("limits"@, limits_json(self.limits))).push(
                ("depth"@, JsonView::Int(self.depth as int)),
            ).push(("depth_limit"@, JsonView::Int(self.depth_limit as int))).push(
                ("lease_nonce"@, JsonView::Str(self.lease_nonce)),
            ).push(("approved_action_digest"@, text_or_null(self.approved_action_digest))),
        )
    }

    /// The text that the signature covers.
    pub open spec fn signing_text(self) -> Seq<char> {
        canonical(self.unsigned())->Ok_0
    }

    /// The lease without its signature.
    pub open spec fn with_signature(self, signature: Seq<char>) -> LeaseView {
        LeaseView { signature, ..self }
    }

    /// The lease signed with the secret key `seed`.
    pub open spec fn signed(self, seed: Seq<u8>) -> LeaseView {
        self.with_signature(hex_signature(seed, encode_utf8(self.signing_text())))
    }

    /// The lease is signed with the secret key of the public key `key`.
    pub open spec fn verifies(self, key: Seq<u8>) -> bool {
        signed_by(key, encode_utf8(self.signing_text()), self.signature)
    }

    /// The lease is in force at `now_ms`.
    pub open spec fn live_at(self, now_ms: i64) -> bool {
        self.limits.not_before_ms <= now_ms < self.limits.expires_at_ms
    }
}

proof fn budget_is_integral(b: Budget)
    ensures
        integral(budget_json(b)),
{
    let m = budget_json(b)->Object_0;
    assert forall|i: int| 0 <= i < m.len() implies integral((#[trigger] m[i]).1) by {
        assert(m[i].1 is Int);
    }
    assert(integral(budget_json(b)));
}

/// Every lease can be signed: what the signature covers has a canonical text.
pub proof fn leases_are_canonical(l: LeaseView)
    ensures
        canonical(l.unsigned()) is Ok,
{
    broadcast use {integral_none, integral_push};

    scope_is_integral(l.scope);
    budget_is_integral(l.limits.budget);
    assert(integral(limits_json(l.limits)));
    assert(integral(l.unsigned()));
    canonical_iff_integral(l.unsigned());
}

/// A signature made over a lease is accepted for it, and does not change what
/// is covered.
pub proof fn signing_is_not_covered(l: LeaseView, signature: Seq<char>)
    ensures
        l.with_signature(signature).signing_text() == l.signing_text(),
{
}

fn option_json(s: &Option<String>) -> (r: Json)
    ensures
        r@ == text_or_null(optional(*s)),
{
    match s {
        Some(x) => string(x.as_str()),
        None => Json::Null,
    }
}

fn encode_budget(b: &Budget) -> (r: Json)
    ensures
        r@ == budget_json(*b),
{
    let entries = b.iter();
    let ghost want = budget_json(*b)->Object_0;
    let mut m = no_members();
    let mut i: usize = 0;
    while i < entries.len()
        invariant
            i <= entries@.len(),
            entries@ == b.entries_from(0),
            want == budget_json(*b)->Object_0,
            member_models(m@) =~= want.take(i as int),
        decreases entries@.len() - i,
    {
        put(&mut m, entries[i].0.as_str(), Json::UInt(entries[i].1));
        proof {
            assert(want.take(i + 1) =~= want.take(i as int).push(want[i as int]));
        }
        i += 1;
    }
    proof {
        assert(want.take(i as int) =~= want);
    }
    object(m)
}

fn encode_limits(l: &LeaseLimits) -> (r: Json)
    ensures
        r@ == limits_json(*l),
{
    let mut m = no_members();
    put(&mut m, "not_before_ms", Json::Int(l.not_before_ms));
    put(&mut m, "expires_at_ms", Json::Int(l.expires_at_ms));
    put(&mut m, "budget", encode_budget(&l.budget));
    put(
        &mut m,
        "max_executions",
        match l.max_executions {
            Some(n) => Json::UInt(n),
            None => Json::Null,
        },
    );
    put(&mut m, "single_use", Json::Bool(l.single_use));
    object(m)
}

impl LeaseDocument {
    fn to_json(&self) -> (r: Json)
        requires
            self@.scope.wf(),
        ensures
            r@ == self@.unsigned(),
    {
        let mut m = no_members();
        put(&mut m, "protocol_version", Json::UInt(self.protocol_version as u64));
        put(&mut m, "lease_id", string(self.lease_id.as_str()));
        put(&mut m, "parent_id", option_json(&self.parent_id));
        put(&mut m, "subject", string(self.subject.as_str()));
        put(&mut m, "issuer_key_id", string(self.issuer_key_id.as_str()));
        put(&mut m, "issued_at_ms", Json::Int(self.issued_at_ms));
        put(&mut m, "scope", self.scope.to_json());
        put(&mut m, "limits", encode_limits(&self.limits));
        put(&mut m, "depth", Json::UInt(self.depth as u64));
        put(&mut m, "depth_limit", Json::UInt(self.depth_limit as u64));
        put(&mut m, "lease_nonce", string(self.lease_nonce.as_str()));
        put(&mut m, "approved_action_digest", option_json(&self.approved_action_digest));
        object(m)
    }

    /// The canonical text that the signature covers.
    pub fn signing_bytes(&self) -> (r: Result<String, LeaseError>)
        requires
            self@.scope.wf(),
        ensures
            r matches Ok(t) && t@ == self@.signing_text(),
    {
        proof {
            leases_are_canonical(self@);
        }
        match canonical_json(&self.to_json()) {
            Ok(t) => Ok(t),
            Err(e) => Err(LeaseError::ProtocolCanonical(e)),
        }
    }

    fn signing_string(&self) -> (r: String)
        requires
            self@.scope.wf(),
        ensures
            r@ == self@.signing_text(),
    {
        match self.signing_bytes() {
            Ok(t) => t,
            Err(_) => String::new(),
        }
    }

    /// The digest of what the signature covers.
    pub fn digest(&self) -> (r: Result<String, LeaseError>)
        requires
            self@.scope.wf(),
        ensures
            r matches Ok(d) && d@ == text_digest(self@.signing_text()),
    {
        match self.signing_bytes() {
            Ok(t) => Ok(sha256_hex_str(t.as_str())),
            Err(e) => Err(e),
        }
    }

    /// Signs the lease.
    pub fn sign(&mut self, key: &SigningKey)
        requires
            old(self)@.scope.wf(),
        ensures
            final(self)@ == old(self)@.signed(key@),
            final(self)@.verifies(crate::keys::ed25519_public(key@)),
    {
        let text = self.signing_string();
        let ghost before = self@;
        self.signature = sign_hex(key, text.as_str().as_bytes());
        proof {
            signing_is_not_covered(before, self.signature@);
            assert(self@ == before.signed(key@));
        }
    }

    /// Checks the signature.
    pub fn verify_signature(&self, key: &VerifyingKey) -> (r: Result<(), LeaseError>)
        requires
            self@.scope.wf(),
        ensures
            lease_unit(r) == (if self@.verifies(key@) {
                Ok(())
            } else {
                Err(LeaseErrorView::BadSignature)
            }),
    {
        let text = self.signing_string();
        if verify_hex(key, text.as_str().as_bytes(), self.signature.as_str()) {
            Ok(())
        } else {
            Err(LeaseError::BadSignature)
        }
    }

    /// Whether the lease has no parent.
    pub fn is_root(&self) -> (r: bool)
        ensures
            r == (self@.parent_id is None),
    {
        self.parent_id.is_none()
    }

    /// Whether the lease is in force.
    pub fn live_at(&self, now_ms: i64) -> (r: bool)
        ensures
            r == self@.live_at(now_ms),
    {
        self.limits.not_before_ms <= now_ms && now_ms < self.limits.expires_at_ms
    }
}

impl Clone for LeaseDocument {
    fn clone(&self) -> (r: LeaseDocument)
        ensures
            r@ == self@,
    {
        LeaseDocument {
            protocol_version: self.protocol_version,
            lease_id: self.lease_id.clone(),
            parent_id: copy_option(&self.parent_id),
            subject: self.subject.clone(),
            issuer_key_id: self.issuer_key_id.clone(),
            issued_at_ms: self.issued_at_ms,
            scope: self.scope.clone(),
            limits: self.limits,
            depth: self.depth,
            depth_limit: self.depth_limit,
            lease_nonce: self.lease_nonce.clone(),
            approved_action_digest: copy_option(&self.approved_action_digest),
            signature: self.signature.clone(),
        }
    }
}

fn copy_option(s: &Option<String>) -> (r: Option<String>)
    ensures
        optional(r) == optional(*s),
{
    match s {
        Some(x) => Some(x.clone()),
        None => None,
    }
}

proof fn dimension_names_differ(a: BudgetDimension, b: BudgetDimension)
    ensures
        a.name() == b.name() ==> a == b,
{
    reveal_strlit("spend_micros");
    reveal_strlit("tokens");
    reveal_strlit("executions");
    reveal_strlit("wall_time_ms");
    reveal_strlit("cpu_ms");
    reveal_strlit("bytes_in");
    reveal_strlit("bytes_out");
    reveal_strlit("concurrency");
    let (s, t) = (a.name(), b.name());
    assert(s == t ==> s.len() == t.len() && s[0] == t[0]);
}

proof fn entries_hold(b: Budget, i: int, d: BudgetDimension)
    requires
        0 <= i <= 8,
    ensures
        forall|k: int|
            0 <= k < b.entries_from(i).len() ==> {
                &&& (#[trigger] b.entries_from(i)[k]).1 == b.at(b.entries_from(i)[k].0)
                &&& b.entries_from(i)[k].1 > 0
            },
        d.rank() >= i && b.at(d) > 0 ==> exists|k: int|
            0 <= k < b.entries_from(i).len() && #[trigger] b.entries_from(i)[k] == (d, b.at(d)),
    decreases 8 - i,
{
    if i < 8 {
        entries_hold(b, i + 1, d);
        let n = BudgetDimension::nth(i);
        let rest = b.entries_from(i + 1);
        let all = b.entries_from(i);
        if b.at(n) > 0 {
            assert(all == seq![(n, b.at(n))] + rest);
            assert(all[0] == (n, b.at(n)));
            assert forall|k: int| 0 <= k < all.len() implies (#[trigger] all[k]).1 == b.at(all[k].0)
                && all[k].1 > 0 by {
                if k > 0 {
                    assert(all[k] == rest[k - 1]);
                }
            }
            if d.rank() > i && b.at(d) > 0 {
                let k = choose|k: int|
                    0 <= k < rest.len() && #[trigger] rest[k] == (d, b.at(d));
                assert(all[k + 1] == (d, b.at(d)));
            }
        }
        if d.rank() == i {
            assert(d == n);
        }
    }
}

proof fn budgets_are_told_apart(a: Budget, b: Budget)
    requires
        budget_json(a) == budget_json(b),
    ensures
        a == b,
{
    let x = budget_json(a)->Object_0;
    let y = budget_json(b)->Object_0;
    let p = a.entries_from(0);
    let q = b.entries_from(0);
    assert(x.len() == p.len() && y.len() == q.len());
    assert forall|k: int| 0 <= k < p.len() implies #[trigger] p[k] == q[k] by {
        assert(x[k] == y[k]);
        assert(x[k] == (p[k].0.name(), JsonView::Int(p[k].1 as int)));
        assert(y[k] == (q[k].0.name(), JsonView::Int(q[k].1 as int)));
        dimension_names_differ(p[k].0, q[k].0);
    }
    assert forall|d: BudgetDimension| #[trigger] a.at(d) == b.at(d) by {
        entries_hold(a, 0, d);
        entries_hold(b, 0, d);
        if a.at(d) > 0 {
            let k = choose|k: int| 0 <= k < p.len() && #[trigger] p[k] == (d, a.at(d));
            assert(q[k] == p[k]);
        }
        if b.at(d) > 0 {
            let k = choose|k: int| 0 <= k < q.len() && #[trigger] q[k] == (d, b.at(d));
            assert(p[k] == q[k]);
        }
    }
    budget_extensional(a, b);
}

/// The signature covers the whole lease but the signature itself: two leases
/// with the same covered value have the same version, identity, parent,
/// subject, issuer, time of issue, scope, limits, depth, limit of depth, nonce
/// and approved action.
pub proof fn covered_values_tell_leases_apart(a: LeaseView, b: LeaseView)
    requires
        a.unsigned() == b.unsigned(),
    ensures
        a.protocol_version == b.protocol_version,
        a.lease_id == b.lease_id,
        a.parent_id == b.parent_id,
        a.subject == b.subject,
        a.issuer_key_id == b.issuer_key_id,
        a.issued_at_ms == b.issued_at_ms,
        a.scope.tools == b.scope.tools,
        a.scope.paths == b.scope.paths,
        a.scope.destinations.len() == b.scope.destinations.len(),
        forall|i: int|
            0 <= i < a.scope.destinations.len() ==> same_destination(
                #[trigger] a.scope.destinations[i],
                b.scope.destinations[i],
            ),
        a.scope.secrets == b.scope.secrets,
        a.scope.accounts == b.scope.accounts,
        a.scope.models == b.scope.models,
        a.scope.effects == b.scope.effects,
        a.limits == b.limits,
        a.depth == b.depth,
        a.depth_limit == b.depth_limit,
        a.lease_nonce == b.lease_nonce,
        a.approved_action_digest == b.approved_action_digest,
{
    let x = a.unsigned()->Object_0;
    let y = b.unsigned()->Object_0;
    assert(x[0].1 == y[0].1);
    assert(x[1].1 == y[1].1);
    assert(x[2].1 == y[2].1);
    assert(x[3].1 == y[3].1);
    assert(x[4].1 == y[4].1);
    assert(x[5].1 == y[5].1);
    assert(x[6].1 == y[6].1);
    assert(x[7].1 == y[7].1);
    assert(x[8].1 == y[8].1);
    assert(x[9].1 == y[9].1);
    assert(x[10].1 == y[10].1);
    assert(x[11].1 == y[11].1);
    assert(x[6].1 == a.scope.json() && y[6].1 == b.scope.json());
    assert(x[7].1 == limits_json(a.limits) && y[7].1 == limits_json(b.limits));
    scopes_are_told_apart(a.scope, b.scope);
    let p = limits_json(a.limits)->Object_0;
    let q = limits_json(b.limits)->Object_0;
    assert(p == q);
    assert(p[0].1 == q[0].1);
    assert(p[1].1 == q[1].1);
    assert(p[2].1 == q[2].1);
    assert(p[3].1 == q[3].1);
    assert(p[4].1 == q[4].1);
    budgets_are_told_apart(a.limits.budget, b.limits.budget);
}

} // verus!
