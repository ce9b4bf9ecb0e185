//! Budgets and usage: reservation-based budget narrowing.
//!
//! Checking that a child's budget is below its parent's is not enough: a parent
//! could issue many individually valid children whose combined budgets exceed
//! its authority. Instead, at issuance the ledger reserves the child's maximum
//! against the parent's remaining balance. Consumption debits the reservation;
//! unused capacity returns only on explicit revocation or expiry.
//!
//! Every mutation takes the ledger by `&mut`, so it is one indivisible step.
//! Debits are idempotent on caller-supplied keys, so retries never
//! double-charge.

use crate::ids::{prefixed_id, random_uuid, uuid_text};
use crate::table::{table_keys, Table};
use crate::text::{concat, decimal, push_u64, str_eq, surround};
use vstd::prelude::*;

verus! {

/// Budget dimensions. All amounts are integers: monetary spend is
/// micro-dollars.
#[derive(Clone, Copy, Debug, PartialEq, Eq, PartialOrd, Ord, Hash, Structural)]
pub enum BudgetDimension {
    /// Micro-dollars of provider and model spend.
    SpendMicros,
    /// Model tokens, input and output.
    Tokens,
    /// Action executions.
    Executions,
    /// Wall-clock milliseconds.
    WallTimeMs,
    /// CPU milliseconds.
    CpuMs,
    /// Ingress bytes.
    BytesIn,
    /// Egress bytes.
    BytesOut,
    /// Concurrent in-flight actions.
    Concurrency,
}

impl BudgetDimension {
    /// The wire name.
    pub open spec fn name(self) -> Seq<char> {
        match self {
            BudgetDimension::SpendMicros => "spend_micros"@,
            BudgetDimension::Tokens => "tokens"@,
            BudgetDimension::Executions => "executions"@,
            BudgetDimension::WallTimeMs => "wall_time_ms"@,
            BudgetDimension::CpuMs => "cpu_ms"@,
            BudgetDimension::BytesIn => "bytes_in"@,
            BudgetDimension::BytesOut => "bytes_out"@,
            BudgetDimension::Concurrency => "concurrency"@,
        }
    }

    /// The name used in diagnostics.
    pub open spec fn label(self) -> Seq<char> {
        match self {
            BudgetDimension::SpendMicros => "SpendMicros"@,
            BudgetDimension::Tokens => "Tokens"@,
            BudgetDimension::Executions => "Executions"@,
            BudgetDimension::WallTimeMs => "WallTimeMs"@,
            BudgetDimension::CpuMs => "CpuMs"@,
            BudgetDimension::BytesIn => "BytesIn"@,
            BudgetDimension::BytesOut => "BytesOut"@,
            BudgetDimension::Concurrency => "Concurrency"@,
        }
    }

    /// The `i`-th dimension, in declaration order.
    pub open spec fn nth(i: int) -> BudgetDimension {
        if i == 0 {
            BudgetDimension::SpendMicros
        } else if i == 1 {
            BudgetDimension::Tokens
        } else if i == 2 {
            BudgetDimension::Executions
        } else if i == 3 {
            BudgetDimension::WallTimeMs
        } else if i == 4 {
            BudgetDimension::CpuMs
        } else if i == 5 {
            BudgetDimension::BytesIn
        } else if i == 6 {
            BudgetDimension::BytesOut
        } else {
            BudgetDimension::Concurrency
        }
    }

    /// The position of a dimension in declaration order.
    pub open spec fn rank(self) -> int {
        match self {
            BudgetDimension::SpendMicros => 0,
            BudgetDimension::Tokens => 1,
            BudgetDimension::Executions => 2,
            BudgetDimension::WallTimeMs => 3,
            BudgetDimension::CpuMs => 4,
            BudgetDimension::BytesIn => 5,
            BudgetDimension::BytesOut => 6,
            BudgetDimension::Concurrency => 7,
        }
    }

    /// The wire name.
    pub fn as_str(self) -> (r: &'static str)
        ensures
            r@ == self.name(),
    {
        match self {
            BudgetDimension::SpendMicros => "spend_micros",
            BudgetDimension::Tokens => "tokens",
            BudgetDimension::Executions => "executions",
            BudgetDimension::WallTimeMs => "wall_time_ms",
            BudgetDimension::CpuMs => "cpu_ms",
            BudgetDimension::BytesIn => "bytes_in",
            BudgetDimension::BytesOut => "bytes_out",
            BudgetDimension::Concurrency => "concurrency",
        }
    }

    fn label_str(self) -> (r: &'static str)
        ensures
            r@ == self.label(),
    {
        match self {
            BudgetDimension::SpendMicros => "SpendMicros",
            BudgetDimension::Tokens => "Tokens",
            BudgetDimension::Executions => "Executions",
            BudgetDimension::WallTimeMs => "WallTimeMs",
            BudgetDimension::CpuMs => "CpuMs",
            BudgetDimension::BytesIn => "BytesIn",
            BudgetDimension::BytesOut => "BytesOut",
            BudgetDimension::Concurrency => "Concurrency",
        }
    }

    /// The dimension at position `i`.
    pub fn at(i: usize) -> (r: BudgetDimension)
        requires
            i < 8,
        ensures
            r == BudgetDimension::nth(i as int),
            r.rank() == i,
    {
        match i {
            0 => BudgetDimension::SpendMicros,
            1 => BudgetDimension::Tokens,
            2 => BudgetDimension::Executions,
            3 => BudgetDimension::WallTimeMs,
            4 => BudgetDimension::CpuMs,
            5 => BudgetDimension::BytesIn,
            6 => BudgetDimension::BytesOut,
            _ => BudgetDimension::Concurrency,
        }
    }
}

/// A per-dimension budget. A dimension that was never set is zero: no grant.
#[derive(Clone, Copy, Debug, PartialEq, Eq, Structural)]
pub struct Budget {
    spend_micros: u64,
    tokens: u64,
    executions: u64,
    wall_time_ms: u64,
    cpu_ms: u64,
    bytes_in: u64,
    bytes_out: u64,
    concurrency: u64,
}

impl Budget {
    /// The amount granted in dimension `d`.
    pub closed spec fn at(self, d: BudgetDimension) -> u64 {
        match d {
            BudgetDimension::SpendMicros => self.spend_micros,
            BudgetDimension::Tokens => self.tokens,
            BudgetDimension::Executions => self.executions,
            BudgetDimension::WallTimeMs => self.wall_time_ms,
            BudgetDimension::CpuMs => self.cpu_ms,
            BudgetDimension::BytesIn => self.bytes_in,
            BudgetDimension::BytesOut => self.bytes_out,
            BudgetDimension::Concurrency => self.concurrency,
        }
    }

    /// The budget that grants `f(d)` in each dimension `d`.
    pub closed spec fn of(f: spec_fn(BudgetDimension) -> u64) -> Budget {
        Budget {
            spend_micros: f(BudgetDimension::SpendMicros),
            tokens: f(BudgetDimension::Tokens),
            executions: f(BudgetDimension::Executions),
            wall_time_ms: f(BudgetDimension::WallTimeMs),
            cpu_ms: f(BudgetDimension::CpuMs),
            bytes_in: f(BudgetDimension::BytesIn),
            bytes_out: f(BudgetDimension::BytesOut),
            concurrency: f(BudgetDimension::Concurrency),
        }
    }

    /// The budget that grants nothing.
    pub open spec fn zero() -> Budget {
        Budget::of(|d: BudgetDimension| 0u64)
    }

    /// Every dimension of `other` fits in `self`.
    pub open spec fn covers_all(self, other: Budget) -> bool {
        forall|d: BudgetDimension| #[trigger] other.at(d) <= self.at(d)
    }

    /// No dimension of the sum exceeds 64 bits.
    pub open spec fn sum_fits(self, other: Budget) -> bool {
        forall|d: BudgetDimension| #[trigger] self.at(d) + other.at(d) <= u64::MAX
    }

    /// The sum, dimension by dimension.
    pub open spec fn plus(self, other: Budget) -> Budget {
        Budget::of(|d: BudgetDimension| (self.at(d) + other.at(d)) as u64)
    }

    /// The difference, dimension by dimension, and zero where it would be
    /// negative.
    pub open spec fn minus(self, other: Budget) -> Budget {
        Budget::of(
            |d: BudgetDimension|
                if self.at(d) <= other.at(d) {
                    0u64
                } else {
                    (self.at(d) - other.at(d)) as u64
                },
        )
    }

    /// The dimensions from position `i` on in which something is granted, in
    /// declaration order.
    pub open spec fn entries_from(self, i: int) -> Seq<(BudgetDimension, u64)>
        decreases 8 - i,
    {
        if i >= 8 {
            Seq::empty()
        } else {
            let d = BudgetDimension::nth(i);
            let rest = self.entries_from(i + 1);
            if self.at(d) > 0 {
                seq![(d, self.at(d))] + rest
            } else {
                rest
            }
        }
    }

    /// The first dimension from position `i` on in which `need` exceeds
    /// `self`.
    pub open spec fn short_from(self, need: Budget, i: int) -> Option<BudgetDimension>
        decreases 8 - i,
    {
        if i >= 8 {
            None
        } else if self.at(BudgetDimension::nth(i)) < need.at(BudgetDimension::nth(i)) {
            Some(BudgetDimension::nth(i))
        } else {
            self.short_from(need, i + 1)
        }
    }
}

/// A budget built from a function grants what the function gives.
pub broadcast proof fn budget_of_at(f: spec_fn(BudgetDimension) -> u64, d: BudgetDimension)
    ensures
        #[trigger] Budget::of(f).at(d) == f(d),
{
}

/// Two budgets that grant the same in every dimension are the same budget.
pub proof fn budget_extensional(a: Budget, b: Budget)
    requires
        forall|d: BudgetDimension| #[trigger] a.at(d) == b.at(d),
    ensures
        a == b,
{
    assert(a.at(BudgetDimension::SpendMicros) == b.at(BudgetDimension::SpendMicros));
    assert(a.at(BudgetDimension::Tokens) == b.at(BudgetDimension::Tokens));
    assert(a.at(BudgetDimension::Executions) == b.at(BudgetDimension::Executions));
    assert(a.at(BudgetDimension::WallTimeMs) == b.at(BudgetDimension::WallTimeMs));
    assert(a.at(BudgetDimension::CpuMs) == b.at(BudgetDimension::CpuMs));
    assert(a.at(BudgetDimension::BytesIn) == b.at(BudgetDimension::BytesIn));
    assert(a.at(BudgetDimension::BytesOut) == b.at(BudgetDimension::BytesOut));
    assert(a.at(BudgetDimension::Concurrency) == b.at(BudgetDimension::Concurrency));
}

impl Budget {
    /// The budget that grants nothing.
    pub fn new() -> (r: Budget)
        ensures
            r == Budget::zero(),
    {
        Budget {
            spend_micros: 0,
            tokens: 0,
            executions: 0,
            wall_time_ms: 0,
            cpu_ms: 0,
            bytes_in: 0,
            bytes_out: 0,
            concurrency: 0,
        }
    }

    /// Grants `amount` in `dim`. An amount of zero leaves the budget as it is.
    pub fn set(self, dim: BudgetDimension, amount: u64) -> (r: Budget)
        ensures
            forall|d: BudgetDimension| #[trigger]
                r.at(d) == (if d == dim && amount > 0 {
                    amount
                } else {
                    self.at(d)
                }),
    {
        let mut out = self;
        if amount > 0 {
            match dim {
                BudgetDimension::SpendMicros => { out.spend_micros = amount; },
                BudgetDimension::Tokens => { out.tokens = amount; },
                BudgetDimension::Executions => { out.executions = amount; },
                BudgetDimension::WallTimeMs => { out.wall_time_ms = amount; },
                BudgetDimension::CpuMs => { out.cpu_ms = amount; },
                BudgetDimension::BytesIn => { out.bytes_in = amount; },
                BudgetDimension::BytesOut => { out.bytes_out = amount; },
                BudgetDimension::Concurrency => { out.concurrency = amount; },
            }
        }
        out
    }

    /// The amount granted in `dim`.
    pub fn get(&self, dim: BudgetDimension) -> (r: u64)
        ensures
            r == self.at(dim),
    {
        match dim {
            BudgetDimension::SpendMicros => self.spend_micros,
            BudgetDimension::Tokens => self.tokens,
            BudgetDimension::Executions => self.executions,
            BudgetDimension::WallTimeMs => self.wall_time_ms,
            BudgetDimension::CpuMs => self.cpu_ms,
            BudgetDimension::BytesIn => self.bytes_in,
            BudgetDimension::BytesOut => self.bytes_out,
            BudgetDimension::Concurrency => self.concurrency,
        }
    }

    /// Whether nothing is granted.
    pub fn is_zero(&self) -> (r: bool)
        ensures
            r == (*self == Budget::zero()),
    {
        self.spend_micros == 0 && self.tokens == 0 && self.executions == 0 && self.wall_time_ms == 0
            && self.cpu_ms == 0 && self.bytes_in == 0 && self.bytes_out == 0 && self.concurrency
            == 0
    }

    /// Whether every dimension of `other` fits in `self`.
    pub fn covers(&self, other: &Budget) -> (r: bool)
        ensures
            r == self.covers_all(*other),
    {
        let mut i: usize = 0;
        while i < 8
            invariant
                i <= 8,
                forall|d: BudgetDimension| d.rank() < i ==> #[trigger] other.at(d) <= self.at(d),
            decreases 8 - i,
        {
            let d = BudgetDimension::at(i);
            if self.get(d) < other.get(d) {
                return false;
            }
            i += 1;
        }
        true
    }

    fn shortfall(&self, need: &Budget) -> (r: Option<BudgetDimension>)
        ensures
            r == self.short_from(*need, 0),
            r is None <==> self.covers_all(*need),
    {
        let mut i: usize = 0;
        while i < 8
            invariant
                i <= 8,
                forall|d: BudgetDimension| d.rank() < i ==> #[trigger] need.at(d) <= self.at(d),
                self.short_from(*need, 0) == self.short_from(*need, i as int),
            decreases 8 - i,
        {
            let d = BudgetDimension::at(i);
            if self.get(d) < need.get(d) {
                return Some(d);
            }
            i += 1;
        }
        None
    }

    /// The sum, or `None` where a dimension would exceed 64 bits.
    pub fn checked_add(&self, other: &Budget) -> (r: Option<Budget>)
        ensures
            match r {
                Some(b) => self.sum_fits(*other) && b == self.plus(*other),
                None => !self.sum_fits(*other),
            },
    {
        let mut i: usize = 0;
        while i < 8
            invariant
                i <= 8,
                forall|d: BudgetDimension|
                    d.rank() < i ==> #[trigger] self.at(d) + other.at(d) <= u64::MAX,
            decreases 8 - i,
        {
            let d = BudgetDimension::at(i);
            if self.get(d) > u64::MAX - other.get(d) {
                return None;
            }
            i += 1;
        }
        proof {
            assert(self.at(BudgetDimension::SpendMicros) == self.spend_micros);
            assert(self.at(BudgetDimension::Tokens) == self.tokens);
            assert(self.at(BudgetDimension::Executions) == self.executions);
            assert(self.at(BudgetDimension::WallTimeMs) == self.wall_time_ms);
            assert(self.at(BudgetDimension::CpuMs) == self.cpu_ms);
            assert(self.at(BudgetDimension::BytesIn) == self.bytes_in);
            assert(self.at(BudgetDimension::BytesOut) == self.bytes_out);
            assert(self.at(BudgetDimension::Concurrency) == self.concurrency);
        }
        Some(
            Budget {
                spend_micros: self.spend_micros + other.spend_micros,
                tokens: self.tokens + other.tokens,
                executions: self.executions + other.executions,
                wall_time_ms: self.wall_time_ms + other.wall_time_ms,
                cpu_ms: self.cpu_ms + other.cpu_ms,
                bytes_in: self.bytes_in + other.bytes_in,
                bytes_out: self.bytes_out + other.bytes_out,
                concurrency: self.concurrency + other.concurrency,
            },
        )
    }

    /// The difference, or `None` where a dimension of `other` exceeds `self`.
    pub fn checked_sub(&self, other: &Budget) -> (r: Option<Budget>)
        ensures
            match r {
                Some(b) => self.covers_all(*other) && b == self.minus(*other),
                None => !self.covers_all(*other),
            },
    {
        if self.covers(other) {
            Some(self.saturating_sub(other))
        } else {
            None
        }
    }

    /// The difference, and zero where it would be negative.
    pub fn saturating_sub(&self, other: &Budget) -> (r: Budget)
        ensures
            r == self.minus(*other),
    {
        Budget {
            spend_micros: self.spend_micros.saturating_sub(other.spend_micros),
            tokens: self.tokens.saturating_sub(other.tokens),
            executions: self.executions.saturating_sub(other.executions),
            wall_time_ms: self.wall_time_ms.saturating_sub(other.wall_time_ms),
            cpu_ms: self.cpu_ms.saturating_sub(other.cpu_ms),
            bytes_in: self.bytes_in.saturating_sub(other.bytes_in),
            bytes_out: self.bytes_out.saturating_sub(other.bytes_out),
            concurrency: self.concurrency.saturating_sub(other.concurrency),
        }
    }

    /// The dimensions in which something is granted, in declaration order.
    pub fn iter(&self) -> (r: Vec<(BudgetDimension, u64)>)
        ensures
            r@ == self.entries_from(0),
    {
        let mut out: Vec<(BudgetDimension, u64)> = Vec::new();
        let mut i: usize = 0;
        while i < 8
            invariant
                i <= 8,
                self.entries_from(0) == out@ + self.entries_from(i as int),
            decreases 8 - i,
        {
            let d = BudgetDimension::at(i);
            let v: u64 = self.get(d);
            if v > 0 {
                let ghost before = out@;
                out.push((d, v));
                proof {
                    assert(before + (seq![(d, v)] + self.entries_from(i + 1)) =~= out@
                        + self.entries_from(i + 1));
                }
            }
            i += 1;
        }
        proof {
            assert(out@ + self.entries_from(8) =~= out@);
        }
        out
    }
}

impl Default for Budget {
    fn default() -> (r: Budget)
        ensures
            r == Budget::zero(),
    {
        Budget::new()
    }
}

/// What a ledger operation reports when it fails.
#[derive(Clone, Debug, PartialEq, Eq)]
pub enum BudgetError {
    /// A dimension of the request exceeds what remains.
    Insufficient { lease: String, dimension: &'static str, needed: u64, remaining: u64 },
    /// No account under this lease id.
    UnknownLease(String),
    /// The lease id already has an account.
    DuplicateLease(String),
    /// No reservation under this id.
    UnknownReservation(String),
    /// The reservation was released before.
    ReservationNotActive(String),
    /// The execution was settled or released before.
    ExecutionNotHeld(String),
    /// The debit, the reservation, and what the reservation still held.
    DebitExceedsHeld(Budget, String, String),
    /// The key was used before with a different debit.
    IdempotencyConflict(String),
    /// A sum exceeds 64 bits.
    Overflow,
    /// The durable store failed.
    Store(String),
    /// The mint cannot be undone: the lease and the reason.
    RollbackFailed(String, String),
}

/// The model of a `BudgetError`.
pub enum BudgetErrorView {
    Insufficient { lease: Seq<char>, dimension: Seq<char>, needed: u64, remaining: u64 },
    UnknownLease(Seq<char>),
    DuplicateLease(Seq<char>),
    UnknownReservation(Seq<char>),
    ReservationNotActive(Seq<char>),
    ExecutionNotHeld(Seq<char>),
    DebitExceedsHeld(Budget, Seq<char>, Seq<char>),
    IdempotencyConflict(Seq<char>),
    Overflow,
    Store(Seq<char>),
    RollbackFailed(Seq<char>, Seq<char>),
}

impl View for BudgetError {
    type V = BudgetErrorView;

    open spec fn view(&self) -> BudgetErrorView {
        match *self {
            BudgetError::Insufficient { lease, dimension, needed, remaining } => {
                BudgetErrorView::Insufficient {
                    lease: lease@,
                    dimension: dimension@,
                    needed,
                    remaining,
                }
            },
            BudgetError::UnknownLease(a) => BudgetErrorView::UnknownLease(a@),
            BudgetError::DuplicateLease(a) => BudgetErrorView::DuplicateLease(a@),
            BudgetError::UnknownReservation(a) => BudgetErrorView::UnknownReservation(a@),
            BudgetError::ReservationNotActive(a) => BudgetErrorView::ReservationNotActive(a@),
            BudgetError::ExecutionNotHeld(a) => BudgetErrorView::ExecutionNotHeld(a@),
            BudgetError::DebitExceedsHeld(b, a, c) => BudgetErrorView::DebitExceedsHeld(
                b,
                a@,
                c@,
            ),
            BudgetError::IdempotencyConflict(a) => BudgetErrorView::IdempotencyConflict(a@),
            BudgetError::Overflow => BudgetErrorView::Overflow,
            BudgetError::Store(a) => BudgetErrorView::Store(a@),
            BudgetError::RollbackFailed(a, c) => BudgetErrorView::RollbackFailed(a@, c@),
        }
    }
}

/// The model of an operation's outcome.
pub open spec fn outcome<T: View>(r: Result<T, BudgetError>) -> Result<T::V, BudgetErrorView> {
    match r {
        Ok(v) => Ok(v@),
        Err(e) => Err(e@),
    }
}

/// The model of the outcome of an operation that gives a budget.
pub open spec fn budget_outcome(r: Result<Budget, BudgetError>) -> Result<Budget, BudgetErrorView> {
    match r {
        Ok(v) => Ok(v),
        Err(e) => Err(e@),
    }
}

/// The model of the outcome of an operation that gives no value.
pub open spec fn unit_outcome(r: Result<(), BudgetError>) -> Result<(), BudgetErrorView> {
    match r {
        Ok(_) => Ok(()),
        Err(e) => Err(e@),
    }
}

/// Whether a reservation still holds its parent's budget.
#[derive(Clone, Copy, Debug, PartialEq, Eq, Structural)]
pub enum ReservationState {
    Active,
    Released,
}

/// Lifecycle of an execution reservation: held when the action is authorized,
/// then exactly one of settled or released.
#[derive(Clone, Copy, Debug, PartialEq, Eq, Structural)]
pub enum ExecutionState {
    Held,
    Settled,
    Released,
}

/// A held reservation of a child's maximum budget against its parent.
#[derive(Debug, PartialEq, Eq)]
pub struct Reservation {
    pub id: String,
    pub child_lease_id: String,
    pub parent_lease_id: String,
    /// The child's maximum, held against the parent at issuance.
    pub held: Budget,
    /// Consumption debited so far.
    pub consumed: Budget,
    pub state: ReservationState,
    pub created_at_ms: i64,
    pub released_at_ms: Option<i64>,
}

/// The model of a `Reservation`.
pub struct ReservationView {
    pub id: Seq<char>,
    pub child_lease_id: Seq<char>,
    pub parent_lease_id: Seq<char>,
    pub held: Budget,
    pub consumed: Budget,
    pub state: ReservationState,
    pub created_at_ms: i64,
    pub released_at_ms: Option<i64>,
}

impl View for Reservation {
    type V = ReservationView;

    open spec fn view(&self) -> ReservationView {
        ReservationView {
            id: self.id@,
            child_lease_id: self.child_lease_id@,
            parent_lease_id: self.parent_lease_id@,
            held: self.held,
            consumed: self.consumed,
            state: self.state,
            created_at_ms: self.created_at_ms,
            released_at_ms: self.released_at_ms,
        }
    }
}

impl Clone for Reservation {
    fn clone(&self) -> (r: Reservation)
        ensures
            r@ == self@,
    {
        Reservation {
            id: self.id.clone(),
            child_lease_id: self.child_lease_id.clone(),
            parent_lease_id: self.parent_lease_id.clone(),
            held: self.held,
            consumed: self.consumed,
            state: self.state,
            created_at_ms: self.created_at_ms,
            released_at_ms: self.released_at_ms,
        }
    }
}

/// A held execution against a lease's own caps: the reserve-before-dispatch
/// half of the execution lifecycle.
#[derive(Debug, PartialEq, Eq)]
pub struct ExecutionReservation {
    /// `exec_` and an identifier.
    pub id: String,
    /// The leaf lease charged for this execution.
    pub lease_id: String,
    /// The envelope's action id.
    pub action_id: String,
    /// The estimated maximum held when the action was authorized.
    pub held: Budget,
    pub state: ExecutionState,
    /// The envelope nonce.
    pub idempotency_key: String,
    pub created_at_ms: i64,
    pub completed_at_ms: Option<i64>,
    /// Measured consumption, recorded when it settles.
    pub actual: Option<Budget>,
}

/// The model of an `ExecutionReservation`.
pub struct ExecutionView {
    pub id: Seq<char>,
    pub lease_id: Seq<char>,
    pub action_id: Seq<char>,
    pub held: Budget,
    pub state: ExecutionState,
    pub idempotency_key: Seq<char>,
    pub created_at_ms: i64,
    pub completed_at_ms: Option<i64>,
    pub actual: Option<Budget>,
}

impl View for ExecutionReservation {
    type V = ExecutionView;

    open spec fn view(&self) -> ExecutionView {
        ExecutionView {
            id: self.id@,
            lease_id: self.lease_id@,
            action_id: self.action_id@,
            held: self.held,
            state: self.state,
            idempotency_key: self.idempotency_key@,
            created_at_ms: self.created_at_ms,
            completed_at_ms: self.completed_at_ms,
            actual: self.actual,
        }
    }
}

impl Clone for ExecutionReservation {
    fn clone(&self) -> (r: ExecutionReservation)
        ensures
            r@ == self@,
    {
        ExecutionReservation {
            id: self.id.clone(),
            lease_id: self.lease_id.clone(),
            action_id: self.action_id.clone(),
            held: self.held,
            state: self.state,
            idempotency_key: self.idempotency_key.clone(),
            created_at_ms: self.created_at_ms,
            completed_at_ms: self.completed_at_ms,
            actual: self.actual,
        }
    }
}

/// Receipt for one debit, stored under its idempotency key.
#[derive(Debug, PartialEq, Eq)]
pub struct DebitReceipt {
    pub reservation_id: String,
    pub actual: Budget,
    pub debited_at_ms: i64,
}

/// The model of a `DebitReceipt`.
pub struct ReceiptView {
    pub reservation_id: Seq<char>,
    pub actual: Budget,
    pub debited_at_ms: i64,
}

impl View for DebitReceipt {
    type V = ReceiptView;

    open spec fn view(&self) -> ReceiptView {
        ReceiptView {
            reservation_id: self.reservation_id@,
            actual: self.actual,
            debited_at_ms: self.debited_at_ms,
        }
    }
}

impl Clone for DebitReceipt {
    fn clone(&self) -> (r: DebitReceipt)
        ensures
            r@ == self@,
    {
        DebitReceipt {
            reservation_id: self.reservation_id.clone(),
            actual: self.actual,
            debited_at_ms: self.debited_at_ms,
        }
    }
}

/// The books of one lease.
#[derive(Clone, Copy, Debug, PartialEq, Eq, Structural)]
pub struct LeaseAccount {
    pub caps: Budget,
    /// Sum of the held budgets of active child reservations.
    pub reserved_out: Budget,
    /// Executions held by authorized, unsettled actions.
    pub exec_held: Budget,
    /// Consumption recorded against this lease.
    pub consumed: Budget,
}

impl View for LeaseAccount {
    type V = LeaseAccount;

    open spec fn view(&self) -> LeaseAccount {
        *self
    }
}

impl LeaseAccount {
    /// A fresh account: nothing reserved, held or consumed.
    pub open spec fn fresh(caps: Budget) -> LeaseAccount {
        LeaseAccount {
            caps,
            reserved_out: Budget::zero(),
            exec_held: Budget::zero(),
            consumed: Budget::zero(),
        }
    }

    /// Everything that stands against the caps fits in 64 bits.
    pub open spec fn total_fits(self) -> bool {
        self.reserved_out.sum_fits(self.exec_held) && self.reserved_out.plus(
            self.exec_held,
        ).sum_fits(self.consumed)
    }

    /// Everything that stands against the caps.
    pub open spec fn total(self) -> Budget {
        self.reserved_out.plus(self.exec_held).plus(self.consumed)
    }

    /// What is left of the caps.
    pub open spec fn balance(self) -> Budget {
        self.caps.minus(self.total())
    }

    /// The fan-out invariant of one account.
    pub open spec fn solvent(self) -> bool {
        self.total_fits() && self.caps.covers_all(self.total())
    }

    fn remaining(&self) -> (r: Option<Budget>)
        ensures
            match r {
                Some(b) => self.total_fits() && b == self.balance(),
                None => !self.total_fits(),
            },
    {
        match self.total_held() {
            Some(t) => Some(self.caps.saturating_sub(&t)),
            None => None,
        }
    }

    fn total_held(&self) -> (r: Option<Budget>)
        ensures
            match r {
                Some(b) => self.total_fits() && b == self.total(),
                None => !self.total_fits(),
            },
    {
        match self.reserved_out.checked_add(&self.exec_held) {
            Some(t) => t.checked_add(&self.consumed),
            None => None,
        }
    }
}

/// The state of a ledger.
#[verifier::ext_equal]
pub struct LedgerView {
    pub accounts: Map<Seq<char>, LeaseAccount>,
    pub reservations: Map<Seq<char>, ReservationView>,
    pub debit_keys: Map<Seq<char>, ReceiptView>,
    pub executions: Map<Seq<char>, ExecutionView>,
    /// Envelope nonce to execution reservation id.
    pub exec_reserve_keys: Map<Seq<char>, Seq<char>>,
    /// Settle key to receipt.
    pub exec_settle_keys: Map<Seq<char>, ReceiptView>,
}

/// The atomic budget ledger.
#[derive(Debug)]
pub struct BudgetLedger {
    accounts: Table<LeaseAccount>,
    reservations: Table<Reservation>,
    debit_keys: Table<DebitReceipt>,
    executions: Table<ExecutionReservation>,
    exec_reserve_keys: Table<String>,
    exec_settle_keys: Table<DebitReceipt>,
}

impl View for BudgetLedger {
    type V = LedgerView;

    closed spec fn view(&self) -> LedgerView {
        LedgerView {
            accounts: self.accounts@,
            reservations: self.reservations@,
            debit_keys: self.debit_keys@,
            executions: self.executions@,
            exec_reserve_keys: self.exec_reserve_keys@,
            exec_settle_keys: self.exec_settle_keys@,
        }
    }
}

impl LedgerView {
    /// The ledger without any entry.
    pub open spec fn empty() -> LedgerView {
        LedgerView {
            accounts: Map::empty(),
            reservations: Map::empty(),
            debit_keys: Map::empty(),
            executions: Map::empty(),
            exec_reserve_keys: Map::empty(),
            exec_settle_keys: Map::empty(),
        }
    }

    /// Each reservation and each execution stands under its own id.
    pub open spec fn keyed(self) -> bool {
        &&& forall|k: Seq<char>| #[trigger]
            self.reservations.dom().contains(k) ==> self.reservations[k].id == k
        &&& forall|k: Seq<char>| #[trigger]
            self.executions.dom().contains(k) ==> self.executions[k].id == k
    }

    pub open spec fn with_account(self, lease: Seq<char>, account: LeaseAccount) -> LedgerView {
        LedgerView { accounts: self.accounts.insert(lease, account), ..self }
    }

    pub open spec fn with_reservation(self, id: Seq<char>, r: ReservationView) -> LedgerView {
        LedgerView { reservations: self.reservations.insert(id, r), ..self }
    }

    pub open spec fn with_execution(self, id: Seq<char>, r: ExecutionView) -> LedgerView {
        LedgerView { executions: self.executions.insert(id, r), ..self }
    }

    pub open spec fn with_debit(self, key: Seq<char>, r: ReceiptView) -> LedgerView {
        LedgerView { debit_keys: self.debit_keys.insert(key, r), ..self }
    }

    pub open spec fn with_settlement(self, key: Seq<char>, r: ReceiptView) -> LedgerView {
        LedgerView { exec_settle_keys: self.exec_settle_keys.insert(key, r), ..self }
    }

    /// Registers a lease's caps, unless the id already has an account.
    pub open spec fn register(self, lease: Seq<char>, caps: Budget) -> (
        LedgerView,
        Result<(), BudgetErrorView>,
    ) {
        if self.accounts.dom().contains(lease) {
            (self, Err(BudgetErrorView::DuplicateLease(lease)))
        } else {
            (self.with_account(lease, LeaseAccount::fresh(caps)), Ok(()))
        }
    }

    /// The reservation `id` is for the child `lease`.
    pub open spec fn names_child(self, id: Seq<char>, lease: Seq<char>) -> bool {
        self.reservations.dom().contains(id) && self.reservations[id].child_lease_id == lease
    }

    /// The reservation `id` is active and held against `lease`.
    pub open spec fn holds_against(self, id: Seq<char>, lease: Seq<char>) -> bool {
        self.reservations.dom().contains(id) && self.reservations[id].parent_lease_id == lease
            && self.reservations[id].state == ReservationState::Active
    }

    /// The execution `id` is held against `lease`.
    pub open spec fn executes_against(self, id: Seq<char>, lease: Seq<char>) -> bool {
        self.executions.dom().contains(id) && self.executions[id].lease_id == lease
            && self.executions[id].state == ExecutionState::Held
    }

    /// The reason for which the mint of `lease` cannot be undone, or the
    /// reservation that goes with it, if any.
    pub open spec fn rollback_plan(self, lease: Seq<char>) -> Result<
        Option<Seq<char>>,
        Seq<char>,
    > {
        if !self.accounts.dom().contains(lease) {
            Err("child account missing"@)
        } else if self.accounts[lease].consumed != Budget::zero() {
            Err("child account shows consumption"@)
        } else if self.accounts[lease].reserved_out != Budget::zero() {
            Err("child account has reserved descendants"@)
        } else if exists|id: Seq<char>| self.holds_against(id, lease) {
            Err("child lease has active descendant reservations"@)
        } else if exists|a: Seq<char>, b: Seq<char>|
            a != b && self.names_child(a, lease) && self.names_child(b, lease) {
            Err("multiple reservations name this child"@)
        } else if !(exists|id: Seq<char>| self.names_child(id, lease)) {
            Ok(None)
        } else {
            let id = choose|id: Seq<char>| self.names_child(id, lease);
            let r = self.reservations[id];
            if r.state != ReservationState::Active {
                Err("issuance reservation is not active"@)
            } else if r.consumed != Budget::zero() {
                Err("issuance reservation shows consumption"@)
            } else if !self.accounts.dom().contains(r.parent_lease_id) {
                Err("parent account missing"@)
            } else if !self.accounts[r.parent_lease_id].reserved_out.covers_all(r.held) {
                Err("parent held balance would underflow"@)
            } else {
                Ok(Some(id))
            }
        }
    }

    /// Undoes a mint: the issuance reservation goes, its hold returns to the
    /// parent, and the lease's account goes. A ledger that does not look like
    /// a fresh, unused mint is left as it is.
    pub open spec fn rollback(self, lease: Seq<char>) -> (LedgerView, Result<(), BudgetErrorView>) {
        match self.rollback_plan(lease) {
            Err(reason) => (self, Err(BudgetErrorView::RollbackFailed(lease, reason))),
            Ok(None) => (
                LedgerView { accounts: self.accounts.remove(lease), ..self },
                Ok(()),
            ),
            Ok(Some(id)) => {
                let r = self.reservations[id];
                let p = self.accounts[r.parent_lease_id];
                let restored = LeaseAccount { reserved_out: p.reserved_out.minus(r.held), ..p };
                (
                    LedgerView {
                        accounts: self.accounts.insert(r.parent_lease_id, restored).remove(lease),
                        reservations: self.reservations.remove(id),
                        ..self
                    },
                    Ok(()),
                )
            },
        }
    }

    /// The dimension in which `need` exceeds the balance of `lease`.
    pub open spec fn insufficient(self, lease: Seq<char>, need: Budget) -> Option<BudgetErrorView> {
        let balance = self.accounts[lease].balance();
        match balance.short_from(need, 0) {
            None => None,
            Some(d) => Some(
                BudgetErrorView::Insufficient {
                    lease,
                    dimension: d.name(),
                    needed: need.at(d),
                    remaining: balance.at(d),
                },
            ),
        }
    }

    /// Reserves `max` against `parent` for `child`, under the reservation id
    /// `id`. On failure nothing changes.
    pub open spec fn reserve(
        self,
        id: Seq<char>,
        parent: Seq<char>,
        child: Seq<char>,
        max: Budget,
        now: i64,
    ) -> (LedgerView, Result<ReservationView, BudgetErrorView>) {
        if self.accounts.dom().contains(child) {
            (self, Err(BudgetErrorView::DuplicateLease(child)))
        } else if !self.accounts.dom().contains(parent) {
            (self, Err(BudgetErrorView::UnknownLease(parent)))
        } else if !self.accounts[parent].total_fits() {
            (self, Err(BudgetErrorView::Overflow))
        } else if let Some(e) = self.insufficient(parent, max) {
            (self, Err(e))
        } else {
            let p = self.accounts[parent];
            let r = ReservationView {
                id,
                child_lease_id: child,
                parent_lease_id: parent,
                held: max,
                consumed: Budget::zero(),
                state: ReservationState::Active,
                created_at_ms: now,
                released_at_ms: None,
            };
            (
                self.with_account(
                    parent,
                    LeaseAccount { reserved_out: p.reserved_out.plus(max), ..p },
                ).with_reservation(id, r),
                Ok(r),
            )
        }
    }

    /// The stored answer to a debit whose key was used before.
    pub open spec fn replay(
        receipt: ReceiptView,
        target: Seq<char>,
        actual: Budget,
        key: Seq<char>,
    ) -> Result<ReceiptView, BudgetErrorView> {
        if receipt.actual == actual && receipt.reservation_id == target {
            Ok(receipt)
        } else {
            Err(BudgetErrorView::IdempotencyConflict(key))
        }
    }

    /// Debits `actual` against the reservation `id`, once per key.
    pub open spec fn debit(self, id: Seq<char>, actual: Budget, key: Seq<char>, now: i64) -> (
        LedgerView,
        Result<ReceiptView, BudgetErrorView>,
    ) {
        if self.debit_keys.dom().contains(key) {
            (self, LedgerView::replay(self.debit_keys[key], id, actual, key))
        } else if !self.reservations.dom().contains(id) {
            (self, Err(BudgetErrorView::UnknownReservation(id)))
        } else if self.reservations[id].state != ReservationState::Active {
            (self, Err(BudgetErrorView::ReservationNotActive(id)))
        } else {
            let r = self.reservations[id];
            let available = r.held.minus(r.consumed);
            if !available.covers_all(actual) {
                (
                    self,
                    Err(
                        BudgetErrorView::DebitExceedsHeld(
                            actual,
                            id,
                            available_text(available),
                        ),
                    ),
                )
            } else if !r.consumed.sum_fits(actual) {
                (self, Err(BudgetErrorView::Overflow))
            } else {
                let receipt = ReceiptView {
                    reservation_id: id,
                    actual,
                    debited_at_ms: now,
                };
                (
                    self.with_reservation(
                        id,
                        ReservationView { consumed: r.consumed.plus(actual), ..r },
                    ).with_debit(key, receipt),
                    Ok(receipt),
                )
            }
        }
    }

    /// Debits `actual` against a lease's own caps, once per key.
    pub open spec fn debit_lease(
        self,
        lease: Seq<char>,
        actual: Budget,
        key: Seq<char>,
        now: i64,
    ) -> (LedgerView, Result<ReceiptView, BudgetErrorView>) {
        if self.debit_keys.dom().contains(key) {
            (self, LedgerView::replay(self.debit_keys[key], lease, actual, key))
        } else if !self.accounts.dom().contains(lease) {
            (self, Err(BudgetErrorView::UnknownLease(lease)))
        } else if !self.accounts[lease].total_fits() {
            (self, Err(BudgetErrorView::Overflow))
        } else {
            let a = self.accounts[lease];
            if !a.balance().covers_all(actual) {
                (
                    self,
                    Err(
                        BudgetErrorView::Insufficient {
                            lease,
                            dimension: "multiple"@,
                            needed: 0,
                            remaining: 0,
                        },
                    ),
                )
            } else {
                let receipt = ReceiptView {
                    reservation_id: lease,
                    actual,
                    debited_at_ms: now,
                };
                (
                    self.with_account(
                        lease,
                        LeaseAccount { consumed: a.consumed.plus(actual), ..a },
                    ).with_debit(key, receipt),
                    Ok(receipt),
                )
            }
        }
    }

    /// Records spend that already happened against a lease, once per key. The
    /// balance is not asked: what was spent is recorded in full, and an account
    /// that it overruns has nothing left.
    pub open spec fn charge_lease(
        self,
        lease: Seq<char>,
        actual: Budget,
        key: Seq<char>,
        now: i64,
    ) -> (LedgerView, Result<ReceiptView, BudgetErrorView>) {
        if self.debit_keys.dom().contains(key) {
            (self, LedgerView::replay(self.debit_keys[key], lease, actual, key))
        } else if !self.accounts.dom().contains(lease) {
            (self, Err(BudgetErrorView::UnknownLease(lease)))
        } else if !self.accounts[lease].consumed.sum_fits(actual) {
            (self, Err(BudgetErrorView::Overflow))
        } else {
            let a = self.accounts[lease];
            let receipt = ReceiptView { reservation_id: lease, actual, debited_at_ms: now };
            (
                self.with_account(
                    lease,
                    LeaseAccount { consumed: a.consumed.plus(actual), ..a },
                ).with_debit(key, receipt),
                Ok(receipt),
            )
        }
    }

    /// The total spend of the child of reservation `r`: what was debited on
    /// the reservation, and what the child's own account consumed or holds.
    pub open spec fn child_spend(self, r: ReservationView) -> Option<Budget> {
        if self.accounts.dom().contains(r.child_lease_id) {
            let c = self.accounts[r.child_lease_id];
            if r.consumed.sum_fits(c.consumed) && r.consumed.plus(c.consumed).sum_fits(
                c.exec_held,
            ) {
                Some(r.consumed.plus(c.consumed).plus(c.exec_held))
            } else {
                None
            }
        } else {
            Some(r.consumed)
        }
    }

    /// Releases the reservation `id`: the hold leaves the parent's
    /// `reserved_out`, the child's spend enters its `consumed`, and the rest is
    /// returned. Where that sum cannot be recorded the books keep the hold.
    pub open spec fn release(self, id: Seq<char>, now: i64) -> (
        LedgerView,
        Result<Budget, BudgetErrorView>,
    ) {
        if !self.reservations.dom().contains(id) {
            (self, Err(BudgetErrorView::UnknownReservation(id)))
        } else if self.reservations[id].state != ReservationState::Active {
            (self, Err(BudgetErrorView::ReservationNotActive(id)))
        } else {
            let r = self.reservations[id];
            let closed = self.with_reservation(
                id,
                ReservationView {
                    state: ReservationState::Released,
                    released_at_ms: Some(now),
                    ..r
                },
            );
            match self.child_spend(r) {
                None => (closed, Err(BudgetErrorView::Overflow)),
                Some(spent) => {
                    if !self.accounts.dom().contains(r.parent_lease_id) {
                        (closed, Err(BudgetErrorView::UnknownLease(r.parent_lease_id)))
                    } else {
                        let p = self.accounts[r.parent_lease_id];
                        if !p.consumed.sum_fits(spent) {
                            (closed, Err(BudgetErrorView::Overflow))
                        } else {
                            (
                                closed.with_account(
                                    r.parent_lease_id,
                                    LeaseAccount {
                                        reserved_out: p.reserved_out.minus(r.held),
                                        consumed: p.consumed.plus(spent),
                                        ..p
                                    },
                                ),
                                Ok(r.held.minus(spent)),
                            )
                        }
                    }
                },
            }
        }
    }

    /// Restores a durable active reservation and its hold. An id that is
    /// already present is left as it is.
    pub open spec fn rehydrate(self, r: ReservationView) -> (
        LedgerView,
        Result<(), BudgetErrorView>,
    ) {
        if self.reservations.dom().contains(r.id) {
            (self, Ok(()))
        } else if r.state != ReservationState::Active {
            (self, Err(BudgetErrorView::ReservationNotActive(r.id)))
        } else if !self.accounts.dom().contains(r.parent_lease_id) {
            (self, Err(BudgetErrorView::UnknownLease(r.parent_lease_id)))
        } else {
            let p = self.accounts[r.parent_lease_id];
            if !p.reserved_out.sum_fits(r.held) {
                (self, Err(BudgetErrorView::Overflow))
            } else {
                (
                    self.with_account(
                        r.parent_lease_id,
                        LeaseAccount { reserved_out: p.reserved_out.plus(r.held), ..p },
                    ).with_reservation(r.id, r),
                    Ok(()),
                )
            }
        }
    }

    /// Holds `need` against `lease` under the reservation id `id`, once per
    /// key.
    pub open spec fn reserve_execution(
        self,
        id: Seq<char>,
        lease: Seq<char>,
        action: Seq<char>,
        need: Budget,
        key: Seq<char>,
        now: i64,
    ) -> (LedgerView, Result<ExecutionView, BudgetErrorView>) {
        if self.exec_reserve_keys.dom().contains(key) {
            let known = self.exec_reserve_keys[key];
            if self.executions.dom().contains(known) {
                (self, Ok(self.executions[known]))
            } else {
                (self, Err(BudgetErrorView::UnknownReservation(known)))
            }
        } else if !self.accounts.dom().contains(lease) {
            (self, Err(BudgetErrorView::UnknownLease(lease)))
        } else if !self.accounts[lease].total_fits() {
            (self, Err(BudgetErrorView::Overflow))
        } else if let Some(e) = self.insufficient(lease, need) {
            (self, Err(e))
        } else {
            let a = self.accounts[lease];
            let r = ExecutionView {
                id,
                lease_id: lease,
                action_id: action,
                held: need,
                state: ExecutionState::Held,
                idempotency_key: key,
                created_at_ms: now,
                completed_at_ms: None,
                actual: None,
            };
            let l = self.with_account(
                lease,
                LeaseAccount { exec_held: a.exec_held.plus(need), ..a },
            ).with_execution(id, r);
            (
                LedgerView { exec_reserve_keys: self.exec_reserve_keys.insert(key, id), ..l },
                Ok(r),
            )
        }
    }

    /// Settles a held execution: the hold dissolves and `actual` is consumed,
    /// once per key.
    pub open spec fn settle_execution(
        self,
        id: Seq<char>,
        actual: Budget,
        key: Seq<char>,
        now: i64,
    ) -> (LedgerView, Result<ReceiptView, BudgetErrorView>) {
        if self.exec_settle_keys.dom().contains(key) {
            (self, LedgerView::replay(self.exec_settle_keys[key], id, actual, key))
        } else if !self.executions.dom().contains(id) {
            (self, Err(BudgetErrorView::UnknownReservation(id)))
        } else if self.executions[id].state != ExecutionState::Held {
            (self, Err(BudgetErrorView::ExecutionNotHeld(id)))
        } else {
            let r = self.executions[id];
            let settled = self.with_execution(
                id,
                ExecutionView {
                    state: ExecutionState::Settled,
                    completed_at_ms: Some(now),
                    actual: Some(actual),
                    ..r
                },
            );
            if !self.accounts.dom().contains(r.lease_id) {
                (settled, Err(BudgetErrorView::UnknownLease(r.lease_id)))
            } else {
                let a = self.accounts[r.lease_id];
                let freed = LeaseAccount { exec_held: a.exec_held.minus(r.held), ..a };
                if !a.consumed.sum_fits(actual) {
                    (
                        settled.with_account(r.lease_id, freed),
                        Err(BudgetErrorView::Overflow),
                    )
                } else {
                    let receipt = ReceiptView {
                        reservation_id: id,
                        actual,
                        debited_at_ms: now,
                    };
                    (
                        settled.with_account(
                            r.lease_id,
                            LeaseAccount { consumed: a.consumed.plus(actual), ..freed },
                        ).with_settlement(key, receipt),
                        Ok(receipt),
                    )
                }
            }
        }
    }

    /// Releases a held execution that was never dispatched: the hold returns.
    pub open spec fn release_execution(self, id: Seq<char>, now: i64) -> (
        LedgerView,
        Result<Budget, BudgetErrorView>,
    ) {
        if !self.executions.dom().contains(id) {
            (self, Err(BudgetErrorView::UnknownReservation(id)))
        } else if self.executions[id].state != ExecutionState::Held {
            (self, Err(BudgetErrorView::ExecutionNotHeld(id)))
        } else {
            let r = self.executions[id];
            let released = self.with_execution(
                id,
                ExecutionView {
                    state: ExecutionState::Released,
                    completed_at_ms: Some(now),
                    ..r
                },
            );
            if !self.accounts.dom().contains(r.lease_id) {
                (released, Err(BudgetErrorView::UnknownLease(r.lease_id)))
            } else {
                let a = self.accounts[r.lease_id];
                (
                    released.with_account(
                        r.lease_id,
                        LeaseAccount { exec_held: a.exec_held.minus(r.held), ..a },
                    ),
                    Ok(r.held),
                )
            }
        }
    }
}

/// Diagnostic text of the entries of a budget.
pub open spec fn entries_text(e: Seq<(BudgetDimension, u64)>) -> Seq<char>
    decreases e.len(),
{
    if e.len() == 0 {
        Seq::empty()
    } else {
        let head = e.drop_last();
        let sep = if head.len() == 0 {
            Seq::<char>::empty()
        } else {
            ", "@
        };
        entries_text(head) + sep + e.last().0.label() + ": "@ + decimal(e.last().1 as nat)
    }
}

/// Diagnostic text of a budget.
pub open spec fn budget_text(b: Budget) -> Seq<char> {
    "Budget({"@ + entries_text(b.entries_from(0)) + "})"@
}

/// Diagnostic text of what a reservation still holds.
pub open spec fn available_text(b: Budget) -> Seq<char> {
    budget_text(b) + " available"@
}

fn render_budget(b: &Budget) -> (r: String)
    ensures
        r@ == budget_text(*b),
{
    let entries = b.iter();
    let mut out = "Budget({".to_owned();
    let mut i: usize = 0;
    proof {
        assert(entries@.take(0) =~= Seq::<(BudgetDimension, u64)>::empty());
        assert(out@ =~= "Budget({"@ + entries_text(entries@.take(0)));
    }
    while i < entries.len()
        invariant
            i <= entries@.len(),
            out@ == "Budget({"@ + entries_text(entries@.take(i as int)),
        decreases entries@.len() - i,
    {
        if i > 0 {
            out.append(", ");
        }
        out.append(entries[i].0.label_str());
        out.append(": ");
        push_u64(&mut out, entries[i].1);
        proof {
            assert(entries@.take(i + 1).drop_last() =~= entries@.take(i as int));
            assert(entries@.take(i + 1).last() == entries@[i as int]);
            assert(out@ =~= "Budget({"@ + entries_text(entries@.take(i + 1)));
        }
        i += 1;
    }
    proof {
        assert(entries@.take(entries@.len() as int) =~= entries@);
    }
    out.append("})");
    out
}

fn render_available(b: &Budget) -> (r: String)
    ensures
        r@ == available_text(*b),
{
    let mut out = render_budget(b);
    out.append(" available");
    out
}

impl BudgetErrorView {
    /// The message shown to an operator.
    pub open spec fn message(self) -> Seq<char> {
        match self {
            BudgetErrorView::Insufficient { lease, dimension, needed, remaining } => {
                "insufficient budget on "@ + lease + ": dimension "@ + dimension + " needs "@
                    + decimal(needed as nat) + ", "@ + decimal(remaining as nat) + " remaining"@
            },
            BudgetErrorView::UnknownLease(a) => "unknown lease in ledger: "@ + a,
            BudgetErrorView::DuplicateLease(a) => "lease "@ + a
                + " is already registered in the ledger"@,
            BudgetErrorView::UnknownReservation(a) => "unknown reservation: "@ + a,
            BudgetErrorView::ReservationNotActive(a) => "reservation "@ + a + " is not active"@,
            BudgetErrorView::ExecutionNotHeld(a) => "execution reservation "@ + a
                + " is not held"@,
            BudgetErrorView::DebitExceedsHeld(b, a, c) => "debit of "@ + budget_text(b)
                + " exceeds reservation "@ + a + ": "@ + c,
            BudgetErrorView::IdempotencyConflict(a) => "idempotency key "@ + a
                + " was already used with a different debit"@,
            BudgetErrorView::Overflow => "budget overflow"@,
            BudgetErrorView::Store(a) => "store error: "@ + a,
            BudgetErrorView::RollbackFailed(a, c) => "cannot roll back lease "@ + a + ": "@ + c,
        }
    }
}

impl BudgetError {
    /// The message shown to an operator.
    pub fn message(&self) -> (r: String)
        ensures
            r@ == self@.message(),
    {
        match self {
            BudgetError::Insufficient { lease, dimension, needed, remaining } => {
                let mut out = "insufficient budget on ".to_owned();
                out.append(lease.as_str());
                out.append(": dimension ");
                out.append(dimension);
                out.append(" needs ");
                push_u64(&mut out, *needed);
                out.append(", ");
                push_u64(&mut out, *remaining);
                out.append(" remaining");
                out
            },
            BudgetError::UnknownLease(a) => concat("unknown lease in ledger: ", a.as_str()),
            BudgetError::DuplicateLease(a) => surround(
                "lease ",
                a.as_str(),
                " is already registered in the ledger",
            ),
            BudgetError::UnknownReservation(a) => concat("unknown reservation: ", a.as_str()),
            BudgetError::ReservationNotActive(a) => surround(
                "reservation ",
                a.as_str(),
                " is not active",
            ),
            BudgetError::ExecutionNotHeld(a) => surround(
                "execution reservation ",
                a.as_str(),
                " is not held",
            ),
            BudgetError::DebitExceedsHeld(b, a, c) => {
                let mut out = concat("debit of ", render_budget(b).as_str());
                out.append(" exceeds reservation ");
                out.append(a.as_str());
                out.append(": ");
                out.append(c.as_str());
                out
            },
            BudgetError::IdempotencyConflict(a) => surround(
                "idempotency key ",
                a.as_str(),
                " was already used with a different debit",
            ),
            BudgetError::Overflow => "budget overflow".to_owned(),
            BudgetError::Store(a) => concat("store error: ", a.as_str()),
            BudgetError::RollbackFailed(a, c) => {
                let mut out = surround("cannot roll back lease ", a.as_str(), ": ");
                out.append(c.as_str());
                out
            },
        }
    }
}

/// What a balance covers can be added to any of the books it was taken from.
proof fn balance_room(a: LeaseAccount, need: Budget)
    requires
        a.total_fits(),
        a.balance().covers_all(need),
    ensures
        a.reserved_out.sum_fits(need),
        a.exec_held.sum_fits(need),
        a.consumed.sum_fits(need),
        (LeaseAccount { reserved_out: a.reserved_out.plus(need), ..a }).total_fits(),
        (LeaseAccount { exec_held: a.exec_held.plus(need), ..a }).total_fits(),
        (LeaseAccount { consumed: a.consumed.plus(need), ..a }).total_fits(),
        forall|d: BudgetDimension| #[trigger]
            a.total().at(d) == a.reserved_out.at(d) + a.exec_held.at(d) + a.consumed.at(d),
        forall|d: BudgetDimension| #[trigger]
            need.at(d) > 0 ==> a.total().at(d) + need.at(d) <= a.caps.at(d),
        forall|d: BudgetDimension|
            a.reserved_out.at(d) + a.exec_held.at(d) + a.consumed.at(d) + #[trigger] need.at(d)
                <= u64::MAX,
{
    broadcast use budget_of_at;

    assert forall|d: BudgetDimension| #[trigger]
        a.total().at(d) == a.reserved_out.at(d) + a.exec_held.at(d) + a.consumed.at(d) by {
        assert(a.reserved_out.at(d) + a.exec_held.at(d) <= u64::MAX);
        assert(a.reserved_out.plus(a.exec_held).at(d) + a.consumed.at(d) <= u64::MAX);
    }
    assert forall|d: BudgetDimension|
        a.reserved_out.at(d) + a.exec_held.at(d) + a.consumed.at(d) + #[trigger] need.at(d)
            <= u64::MAX && (need.at(d) > 0 ==> a.total().at(d) + need.at(d) <= a.caps.at(d)) by {
        assert(need.at(d) <= a.balance().at(d));
        assert(a.total().at(d) == a.reserved_out.at(d) + a.exec_held.at(d) + a.consumed.at(d));
    }
    assert forall|d: BudgetDimension| #[trigger] a.reserved_out.at(d) + need.at(d)
        <= u64::MAX by {}
    assert forall|d: BudgetDimension| #[trigger] a.exec_held.at(d) + need.at(d) <= u64::MAX by {}
    assert forall|d: BudgetDimension| #[trigger] a.consumed.at(d) + need.at(d) <= u64::MAX by {}
    let x = a.reserved_out.plus(need);
    assert forall|d: BudgetDimension| #[trigger] x.at(d) + a.exec_held.at(d) <= u64::MAX by {
        assert(a.reserved_out.at(d) + a.exec_held.at(d) + a.consumed.at(d) + need.at(d)
            <= u64::MAX);
    }
    assert forall|d: BudgetDimension| #[trigger] x.plus(a.exec_held).at(d) + a.consumed.at(d)
        <= u64::MAX by {
        assert(a.reserved_out.at(d) + a.exec_held.at(d) + a.consumed.at(d) + need.at(d)
            <= u64::MAX);
    }
    let y = a.exec_held.plus(need);
    assert forall|d: BudgetDimension| #[trigger] a.reserved_out.at(d) + y.at(d) <= u64::MAX by {
        assert(a.reserved_out.at(d) + a.exec_held.at(d) + a.consumed.at(d) + need.at(d)
            <= u64::MAX);
    }
    assert forall|d: BudgetDimension| #[trigger] a.reserved_out.plus(y).at(d) + a.consumed.at(d)
        <= u64::MAX by {
        assert(a.reserved_out.at(d) + a.exec_held.at(d) + a.consumed.at(d) + need.at(d)
            <= u64::MAX);
    }
    let z = a.consumed.plus(need);
    assert forall|d: BudgetDimension| #[trigger]
        a.reserved_out.plus(a.exec_held).at(d) + z.at(d) <= u64::MAX by {
        assert(a.reserved_out.at(d) + a.exec_held.at(d) + a.consumed.at(d) + need.at(d)
            <= u64::MAX);
    }
}

impl BudgetLedger {
    /// The tables are well formed, and each reservation and execution stands
    /// under its own id.
    pub closed spec fn wf(&self) -> bool {
        &&& self.accounts.wf()
        &&& self.reservations.wf()
        &&& self.debit_keys.wf()
        &&& self.executions.wf()
        &&& self.exec_reserve_keys.wf()
        &&& self.exec_settle_keys.wf()
        &&& self@.keyed()
    }

    /// A ledger without any account.
    pub fn new() -> (r: BudgetLedger)
        ensures
            r.wf(),
            r@ == LedgerView::empty(),
    {
        BudgetLedger {
            accounts: Table::new(),
            reservations: Table::new(),
            debit_keys: Table::new(),
            executions: Table::new(),
            exec_reserve_keys: Table::new(),
            exec_settle_keys: Table::new(),
        }
    }

    /// Registers a lease's caps. An id that already has an account is
    /// refused: replacing the account would reset its books and resurrect
    /// spent budget.
    pub fn register_lease(&mut self, lease_id: &str, caps: &Budget) -> (r: Result<(), BudgetError>)
        requires
            old(self).wf(),
        ensures
            final(self).wf(),
            (final(self)@, unit_outcome(r)) == old(self)@.register(lease_id@, *caps),
    {
        if self.accounts.contains_key(lease_id) {
            return Err(BudgetError::DuplicateLease(lease_id.to_owned()));
        }
        self.accounts.insert(
            lease_id.to_owned(),
            LeaseAccount {
                caps: *caps,
                reserved_out: Budget::new(),
                exec_held: Budget::new(),
                consumed: Budget::new(),
            },
        );
        Ok(())
    }

    /// Whether `lease_id` has an account.
    pub fn is_lease_registered(&self, lease_id: &str) -> (r: bool)
        requires
            self.wf(),
        ensures
            r == self@.accounts.dom().contains(lease_id@),
    {
        self.accounts.contains_key(lease_id)
    }

    fn has_active_descendants(&self, lease_id: &str) -> (r: bool)
        requires
            self.wf(),
        ensures
            r == (exists|id: Seq<char>| self@.holds_against(id, lease_id@)),
    {
        let mut i: usize = 0;
        while i < self.reservations.len()
            invariant
                self.wf(),
                i <= self.reservations.keys().len(),
                forall|j: int|
                    0 <= j < i ==> !self@.holds_against(
                        #[trigger] self.reservations.keys()[j],
                        lease_id@,
                    ),
            decreases self.reservations.keys().len() - i,
        {
            let r = self.reservations.value_at(i);
            if str_eq(r.parent_lease_id.as_str(), lease_id) && r.state == ReservationState::Active {
                proof {
                    assert(self@.holds_against(self.reservations.keys()[i as int], lease_id@));
                }
                return true;
            }
            i += 1;
        }
        proof {
            table_keys(&self.reservations);
        }
        false
    }

    /// The positions of the first two reservations for the child `lease_id`.
    fn naming(&self, lease_id: &str) -> (r: (Option<usize>, bool))
        requires
            self.wf(),
        ensures
            match r.0 {
                Some(i) => i < self.reservations.keys().len() && self@.names_child(
                    self.reservations.keys()[i as int],
                    lease_id@,
                ),
                None => forall|id: Seq<char>| !self@.names_child(id, lease_id@),
            },
            r.1 == (exists|a: Seq<char>, b: Seq<char>|
                a != b && self@.names_child(a, lease_id@) && self@.names_child(b, lease_id@)),
            !r.1 && r.0 is Some ==> forall|id: Seq<char>|
                self@.names_child(id, lease_id@) ==> id == self.reservations.keys()[r.0->0 as int],
    {
        let mut first: Option<usize> = None;
        let mut i: usize = 0;
        while i < self.reservations.len()
            invariant
                self.wf(),
                i <= self.reservations.keys().len(),
                match first {
                    Some(f) => f < i && self@.names_child(
                        self.reservations.keys()[f as int],
                        lease_id@,
                    ),
                    None => true,
                },
                forall|j: int|
                    0 <= j < i && self@.names_child(
                        #[trigger] self.reservations.keys()[j],
                        lease_id@,
                    ) ==> first == Some(j as usize),
            decreases self.reservations.keys().len() - i,
        {
            let r = self.reservations.value_at(i);
            if str_eq(r.child_lease_id.as_str(), lease_id) {
                if let Some(f) = first {
                    proof {
                        let a = self.reservations.keys()[f as int];
                        let b = self.reservations.keys()[i as int];
                        assert(a != b);
                        assert(self@.names_child(a, lease_id@));
                        assert(self@.names_child(b, lease_id@));
                    }
                    return (first, true);
                }
                first = Some(i);
            }
            i += 1;
        }
        proof {
            table_keys(&self.reservations);
            assert forall|id: Seq<char>| self@.names_child(id, lease_id@) implies first is Some
                && id == self.reservations.keys()[first->0 as int] by {
                let j = choose|j: int|
                    0 <= j < self.reservations.keys().len() && self.reservations.keys()[j] == id;
                assert(self@.names_child(self.reservations.keys()[j], lease_id@));
            }
        }
        (first, false)
    }

    /// Undoes a lease mint's ledger effects after its durable step failed:
    /// removes the issuance reservation and the lease's account, and restores
    /// the parent's held balance. A ledger that does not look like a fresh,
    /// unused mint is refused and left untouched.
    pub fn rollback_lease_registration(&mut self, lease_id: &str) -> (r: Result<(), BudgetError>)
        requires
            old(self).wf(),
        ensures
            final(self).wf(),
            (final(self)@, unit_outcome(r)) == old(self)@.rollback(lease_id@),
    {
        let account = match self.accounts.get(lease_id) {
            Some(a) => *a,
            None => {
                return Err(rollback_failed(lease_id, "child account missing"));
            },
        };
        if !account.consumed.is_zero() {
            return Err(rollback_failed(lease_id, "child account shows consumption"));
        }
        if !account.reserved_out.is_zero() {
            return Err(rollback_failed(lease_id, "child account has reserved descendants"));
        }
        if self.has_active_descendants(lease_id) {
            return Err(
                rollback_failed(lease_id, "child lease has active descendant reservations"),
            );
        }
        let (first, multiple) = self.naming(lease_id);
        if multiple {
            return Err(rollback_failed(lease_id, "multiple reservations name this child"));
        }
        if let Some(i) = first {
            let ghost id = self.reservations.keys()[i as int];
            proof {
                assert(self@.names_child(id, lease_id@));
                assert((choose|id: Seq<char>| self@.names_child(id, lease_id@)) == id);
            }
            let r = self.reservations.value_at(i).clone();
            if r.state != ReservationState::Active {
                return Err(rollback_failed(lease_id, "issuance reservation is not active"));
            }
            if !r.consumed.is_zero() {
                return Err(rollback_failed(lease_id, "issuance reservation shows consumption"));
            }
            let parent = match self.accounts.get(r.parent_lease_id.as_str()) {
                Some(p) => *p,
                None => {
                    return Err(rollback_failed(lease_id, "parent account missing"));
                },
            };
            let restored = match parent.reserved_out.checked_sub(&r.held) {
                Some(b) => b,
                None => {
                    return Err(rollback_failed(lease_id, "parent held balance would underflow"));
                },
            };
            let key = self.reservations.key_at(i).clone();
            self.reservations.remove(key.as_str());
            self.accounts.insert(
                r.parent_lease_id,
                LeaseAccount {
                    caps: parent.caps,
                    reserved_out: restored,
                    exec_held: parent.exec_held,
                    consumed: parent.consumed,
                },
            );
        }
        self.accounts.remove(lease_id);
        Ok(())
    }

    /// Reserves `child_max` against the parent's remaining balance. Fails,
    /// before taking any hold, when the child id is already registered, and
    /// atomically when any dimension is short.
    pub fn reserve(
        &mut self,
        parent_lease_id: &str,
        child_lease_id: &str,
        child_max: &Budget,
        now_ms: i64,
    ) -> (r: Result<Reservation, BudgetError>)
        requires
            old(self).wf(),
        ensures
            final(self).wf(),
            exists|u: u128|
                (final(self)@, outcome(r)) == (#[trigger] old(self)@.reserve(
                    "res_"@ + uuid_text(u),
                    parent_lease_id@,
                    child_lease_id@,
                    *child_max,
                    now_ms,
                )),
    {
        let u: u128 = random_uuid();
        self.reserve_as(
            prefixed_id("res_", u),
            parent_lease_id,
            child_lease_id,
            child_max,
            now_ms,
        )
    }

    /// Reserves `child_max` under the reservation id `id`.
    pub fn reserve_as(
        &mut self,
        id: String,
        parent_lease_id: &str,
        child_lease_id: &str,
        child_max: &Budget,
        now_ms: i64,
    ) -> (r: Result<Reservation, BudgetError>)
        requires
            old(self).wf(),
        ensures
            final(self).wf(),
            (final(self)@, outcome(r)) == old(self)@.reserve(
                id@,
                parent_lease_id@,
                child_lease_id@,
                *child_max,
                now_ms,
            ),
    {
        if self.accounts.contains_key(child_lease_id) {
            return Err(BudgetError::DuplicateLease(child_lease_id.to_owned()));
        }
        let parent = match self.accounts.get(parent_lease_id) {
            Some(a) => *a,
            None => {
                return Err(BudgetError::UnknownLease(parent_lease_id.to_owned()));
            },
        };
        let remaining = match parent.remaining() {
            Some(b) => b,
            None => {
                return Err(BudgetError::Overflow);
            },
        };
        if let Some(dim) = remaining.shortfall(child_max) {
            return Err(
                BudgetError::Insufficient {
                    lease: parent_lease_id.to_owned(),
                    dimension: dim.as_str(),
                    needed: child_max.get(dim),
                    remaining: remaining.get(dim),
                },
            );
        }
        proof {
            balance_room(parent, *child_max);
        }
        let reserved_out = match parent.reserved_out.checked_add(child_max) {
            Some(b) => b,
            None => {
                return Err(BudgetError::Overflow);
            },
        };
        let reservation = Reservation {
            id,
            child_lease_id: child_lease_id.to_owned(),
            parent_lease_id: parent_lease_id.to_owned(),
            held: *child_max,
            consumed: Budget::new(),
            state: ReservationState::Active,
            created_at_ms: now_ms,
            released_at_ms: None,
        };
        self.accounts.insert(
            parent_lease_id.to_owned(),
            LeaseAccount {
                caps: parent.caps,
                reserved_out,
                exec_held: parent.exec_held,
                consumed: parent.consumed,
            },
        );
        self.reservations.insert(reservation.id.clone(), reservation.clone());
        Ok(reservation)
    }

    /// Debits actual usage against a reservation. Repeating a key returns the
    /// stored receipt; reusing it for a different debit fails.
    pub fn debit(
        &mut self,
        reservation_id: &str,
        actual: &Budget,
        idempotency_key: &str,
        now_ms: i64,
    ) -> (r: Result<DebitReceipt, BudgetError>)
        requires
            old(self).wf(),
        ensures
            final(self).wf(),
            (final(self)@, outcome(r)) == old(self)@.debit(
                reservation_id@,
                *actual,
                idempotency_key@,
                now_ms,
            ),
    {
        if let Some(receipt) = self.debit_keys.get(idempotency_key) {
            return replay_receipt(receipt, reservation_id, actual, idempotency_key);
        }
        let mut reservation = match self.reservations.get(reservation_id) {
            Some(r) => r.clone(),
            None => {
                return Err(BudgetError::UnknownReservation(reservation_id.to_owned()));
            },
        };
        if reservation.state != ReservationState::Active {
            return Err(BudgetError::ReservationNotActive(reservation_id.to_owned()));
        }
        let available = reservation.held.saturating_sub(&reservation.consumed);
        if !available.covers(actual) {
            return Err(
                BudgetError::DebitExceedsHeld(
                    *actual,
                    reservation_id.to_owned(),
                    render_available(&available),
                ),
            );
        }
        reservation.consumed = match reservation.consumed.checked_add(actual) {
            Some(b) => b,
            None => {
                return Err(BudgetError::Overflow);
            },
        };
        let receipt = DebitReceipt {
            reservation_id: reservation_id.to_owned(),
            actual: *actual,
            debited_at_ms: now_ms,
        };
        self.reservations.insert(reservation_id.to_owned(), reservation);
        self.debit_keys.insert(idempotency_key.to_owned(), receipt.clone());
        Ok(receipt)
    }

    /// Debits spend directly against a lease's own caps.
    pub fn debit_lease(
        &mut self,
        lease_id: &str,
        actual: &Budget,
        idempotency_key: &str,
        now_ms: i64,
    ) -> (r: Result<DebitReceipt, BudgetError>)
        requires
            old(self).wf(),
        ensures
            final(self).wf(),
            (final(self)@, outcome(r)) == old(self)@.debit_lease(
                lease_id@,
                *actual,
                idempotency_key@,
                now_ms,
            ),
    {
        if let Some(receipt) = self.debit_keys.get(idempotency_key) {
            return replay_receipt(receipt, lease_id, actual, idempotency_key);
        }
        let account = match self.accounts.get(lease_id) {
            Some(a) => *a,
            None => {
                return Err(BudgetError::UnknownLease(lease_id.to_owned()));
            },
        };
        let remaining = match account.remaining() {
            Some(b) => b,
            None => {
                return Err(BudgetError::Overflow);
            },
        };
        if !remaining.covers(actual) {
            return Err(
                BudgetError::Insufficient {
                    lease: lease_id.to_owned(),
                    dimension: "multiple",
                    needed: 0,
                    remaining: 0,
                },
            );
        }
        proof {
            balance_room(account, *actual);
        }
        let consumed = match account.consumed.checked_add(actual) {
            Some(b) => b,
            None => {
                return Err(BudgetError::Overflow);
            },
        };
        let receipt = DebitReceipt {
            reservation_id: lease_id.to_owned(),
            actual: *actual,
            debited_at_ms: now_ms,
        };
        self.accounts.insert(
            lease_id.to_owned(),
            LeaseAccount {
                caps: account.caps,
                reserved_out: account.reserved_out,
                exec_held: account.exec_held,
                consumed,
            },
        );
        self.debit_keys.insert(idempotency_key.to_owned(), receipt.clone());
        Ok(receipt)
    }

    /// Records spend that already happened against a lease: unlike a debit it
    /// lands whatever is left, so that nothing spent is ever forgotten.
    pub fn charge_lease(
        &mut self,
        lease_id: &str,
        actual: &Budget,
        idempotency_key: &str,
        now_ms: i64,
    ) -> (r: Result<DebitReceipt, BudgetError>)
        requires
            old(self).wf(),
        ensures
            final(self).wf(),
            (final(self)@, outcome(r)) == old(self)@.charge_lease(
                lease_id@,
                *actual,
                idempotency_key@,
                now_ms,
            ),
    {
        if let Some(receipt) = self.debit_keys.get(idempotency_key) {
            return replay_receipt(receipt, lease_id, actual, idempotency_key);
        }
        let account = match self.accounts.get(lease_id) {
            Some(a) => *a,
            None => {
                return Err(BudgetError::UnknownLease(lease_id.to_owned()));
            },
        };
        let consumed = match account.consumed.checked_add(actual) {
            Some(b) => b,
            None => {
                return Err(BudgetError::Overflow);
            },
        };
        let receipt = DebitReceipt {
            reservation_id: lease_id.to_owned(),
            actual: *actual,
            debited_at_ms: now_ms,
        };
        self.accounts.insert(
            lease_id.to_owned(),
            LeaseAccount {
                caps: account.caps,
                reserved_out: account.reserved_out,
                exec_held: account.exec_held,
                consumed,
            },
        );
        self.debit_keys.insert(idempotency_key.to_owned(), receipt.clone());
        Ok(receipt)
    }

    fn spend_of(&self, r: &Reservation) -> (s: Option<Budget>)
        requires
            self.wf(),
        ensures
            s == self@.child_spend(r@),
    {
        match self.accounts.get(r.child_lease_id.as_str()) {
            Some(c) => match r.consumed.checked_add(&c.consumed) {
                Some(t) => t.checked_add(&c.exec_held),
                None => None,
            },
            None => Some(r.consumed),
        }
    }

    /// Releases a reservation: the unspent held amount returns to the parent,
    /// and the child's whole spend moves into the parent's `consumed`.
    /// Outstanding execution holds of the child count as spent. Returns what
    /// was held and not spent.
    pub fn release(&mut self, reservation_id: &str, now_ms: i64) -> (r: Result<Budget, BudgetError>)
        requires
            old(self).wf(),
        ensures
            final(self).wf(),
            (final(self)@, budget_outcome(r)) == old(self)@.release(reservation_id@, now_ms),
    {
        let reservation = match self.reservations.get(reservation_id) {
            Some(r) => r.clone(),
            None => {
                return Err(BudgetError::UnknownReservation(reservation_id.to_owned()));
            },
        };
        if reservation.state != ReservationState::Active {
            return Err(BudgetError::ReservationNotActive(reservation_id.to_owned()));
        }
        let spent = self.spend_of(&reservation);
        let mut closed = reservation.clone();
        closed.state = ReservationState::Released;
        closed.released_at_ms = Some(now_ms);
        self.reservations.insert(reservation_id.to_owned(), closed);
        let spent = match spent {
            Some(b) => b,
            None => {
                return Err(BudgetError::Overflow);
            },
        };
        let returned = reservation.held.saturating_sub(&spent);
        let parent = match self.accounts.get(reservation.parent_lease_id.as_str()) {
            Some(p) => *p,
            None => {
                return Err(BudgetError::UnknownLease(reservation.parent_lease_id));
            },
        };
        let consumed = match parent.consumed.checked_add(&spent) {
            Some(b) => b,
            None => {
                return Err(BudgetError::Overflow);
            },
        };
        self.accounts.insert(
            reservation.parent_lease_id,
            LeaseAccount {
                caps: parent.caps,
                reserved_out: parent.reserved_out.saturating_sub(&reservation.held),
                exec_held: parent.exec_held,
                consumed,
            },
        );
        Ok(returned)
    }

    /// Restores one durable active reservation after a crash, with its hold
    /// and its recorded consumption. An id already present is left untouched.
    pub fn rehydrate_reservation(&mut self, reservation: &Reservation) -> (r: Result<
        (),
        BudgetError,
    >)
        requires
            old(self).wf(),
        ensures
            final(self).wf(),
            (final(self)@, unit_outcome(r)) == old(self)@.rehydrate(reservation@),
    {
        if self.reservations.contains_key(reservation.id.as_str()) {
            return Ok(());
        }
        if reservation.state != ReservationState::Active {
            return Err(BudgetError::ReservationNotActive(reservation.id.clone()));
        }
        let parent = match self.accounts.get(reservation.parent_lease_id.as_str()) {
            Some(p) => *p,
            None => {
                return Err(BudgetError::UnknownLease(reservation.parent_lease_id.clone()));
            },
        };
        let reserved_out = match parent.reserved_out.checked_add(&reservation.held) {
            Some(b) => b,
            None => {
                return Err(BudgetError::Overflow);
            },
        };
        self.accounts.insert(
            reservation.parent_lease_id.clone(),
            LeaseAccount {
                caps: parent.caps,
                reserved_out,
                exec_held: parent.exec_held,
                consumed: parent.consumed,
            },
        );
        self.reservations.insert(reservation.id.clone(), reservation.clone());
        Ok(())
    }

    /// Reserves execution capacity against the lease's remaining balance,
    /// before dispatch. Repeating a key returns the existing reservation.
    pub fn reserve_execution(
        &mut self,
        lease_id: &str,
        action_id: &str,
        need: &Budget,
        idempotency_key: &str,
        now_ms: i64,
    ) -> (r: Result<ExecutionReservation, BudgetError>)
        requires
            old(self).wf(),
        ensures
            final(self).wf(),
            exists|u: u128|
                (final(self)@, outcome(r)) == (#[trigger] old(self)@.reserve_execution(
                    "exec_"@ + uuid_text(u),
                    lease_id@,
                    action_id@,
                    *need,
                    idempotency_key@,
                    now_ms,
                )),
    {
        let u: u128 = random_uuid();
        self.reserve_execution_as(
            prefixed_id("exec_", u),
            lease_id,
            action_id,
            need,
            idempotency_key,
            now_ms,
        )
    }

    /// Reserves execution capacity under the reservation id `id`.
    pub fn reserve_execution_as(
        &mut self,
        id: String,
        lease_id: &str,
        action_id: &str,
        need: &Budget,
        idempotency_key: &str,
        now_ms: i64,
    ) -> (r: Result<ExecutionReservation, BudgetError>)
        requires
            old(self).wf(),
        ensures
            final(self).wf(),
            (final(self)@, outcome(r)) == old(self)@.reserve_execution(
                id@,
                lease_id@,
                action_id@,
                *need,
                idempotency_key@,
                now_ms,
            ),
    {
        if let Some(known) = self.exec_reserve_keys.get(idempotency_key) {
            return match self.executions.get(known.as_str()) {
                Some(e) => Ok(e.clone()),
                None => Err(BudgetError::UnknownReservation(known.clone())),
            };
        }
        let account = match self.accounts.get(lease_id) {
            Some(a) => *a,
            None => {
                return Err(BudgetError::UnknownLease(lease_id.to_owned()));
            },
        };
        let remaining = match account.remaining() {
            Some(b) => b,
            None => {
                return Err(BudgetError::Overflow);
            },
        };
        if let Some(dim) = remaining.shortfall(need) {
            return Err(
                BudgetError::Insufficient {
                    lease: lease_id.to_owned(),
                    dimension: dim.as_str(),
                    needed: need.get(dim),
                    remaining: remaining.get(dim),
                },
            );
        }
        proof {
            balance_room(account, *need);
        }
        let exec_held = match account.exec_held.checked_add(need) {
            Some(b) => b,
            None => {
                return Err(BudgetError::Overflow);
            },
        };
        let reservation = ExecutionReservation {
            id,
            lease_id: lease_id.to_owned(),
            action_id: action_id.to_owned(),
            held: *need,
            state: ExecutionState::Held,
            idempotency_key: idempotency_key.to_owned(),
            created_at_ms: now_ms,
            completed_at_ms: None,
            actual: None,
        };
        self.accounts.insert(
            lease_id.to_owned(),
            LeaseAccount {
                caps: account.caps,
                reserved_out: account.reserved_out,
                exec_held,
                consumed: account.consumed,
            },
        );
        self.exec_reserve_keys.insert(idempotency_key.to_owned(), reservation.id.clone());
        self.executions.insert(reservation.id.clone(), reservation.clone());
        Ok(reservation)
    }

    /// Settles a held execution after dispatch: the hold dissolves and the
    /// measured consumption is recorded, exactly once per key. The consumption
    /// lands even where the account is short: the effect already happened.
    pub fn settle_execution(
        &mut self,
        reservation_id: &str,
        actual: &Budget,
        idempotency_key: &str,
        now_ms: i64,
    ) -> (r: Result<DebitReceipt, BudgetError>)
        requires
            old(self).wf(),
        ensures
            final(self).wf(),
            (final(self)@, outcome(r)) == old(self)@.settle_execution(
                reservation_id@,
                *actual,
                idempotency_key@,
                now_ms,
            ),
    {
        if let Some(receipt) = self.exec_settle_keys.get(idempotency_key) {
            return replay_receipt(receipt, reservation_id, actual, idempotency_key);
        }
        let mut execution = match self.executions.get(reservation_id) {
            Some(e) => e.clone(),
            None => {
                return Err(BudgetError::UnknownReservation(reservation_id.to_owned()));
            },
        };
        if execution.state != ExecutionState::Held {
            return Err(BudgetError::ExecutionNotHeld(reservation_id.to_owned()));
        }
        let held = execution.held;
        let lease_id = execution.lease_id.clone();
        execution.state = ExecutionState::Settled;
        execution.completed_at_ms = Some(now_ms);
        execution.actual = Some(*actual);
        self.executions.insert(reservation_id.to_owned(), execution);
        let account = match self.accounts.get(lease_id.as_str()) {
            Some(a) => *a,
            None => {
                return Err(BudgetError::UnknownLease(lease_id));
            },
        };
        let freed = LeaseAccount {
            caps: account.caps,
            reserved_out: account.reserved_out,
            exec_held: account.exec_held.saturating_sub(&held),
            consumed: account.consumed,
        };
        let consumed = match account.consumed.checked_add(actual) {
            Some(b) => b,
            None => {
                self.accounts.insert(lease_id, freed);
                return Err(BudgetError::Overflow);
            },
        };
        self.accounts.insert(
            lease_id,
            LeaseAccount {
                caps: freed.caps,
                reserved_out: freed.reserved_out,
                exec_held: freed.exec_held,
                consumed,
            },
        );
        let receipt = DebitReceipt {
            reservation_id: reservation_id.to_owned(),
            actual: *actual,
            debited_at_ms: now_ms,
        };
        self.exec_settle_keys.insert(idempotency_key.to_owned(), receipt.clone());
        Ok(receipt)
    }

    /// Releases a held execution that was never dispatched, or failed before
    /// any effect: the hold returns to the lease's remaining balance.
    pub fn release_execution(&mut self, reservation_id: &str, now_ms: i64) -> (r: Result<
        Budget,
        BudgetError,
    >)
        requires
            old(self).wf(),
        ensures
            final(self).wf(),
            (final(self)@, budget_outcome(r)) == old(self)@.release_execution(
                reservation_id@,
                now_ms,
            ),
    {
        let mut execution = match self.executions.get(reservation_id) {
            Some(e) => e.clone(),
            None => {
                return Err(BudgetError::UnknownReservation(reservation_id.to_owned()));
            },
        };
        if execution.state != ExecutionState::Held {
            return Err(BudgetError::ExecutionNotHeld(reservation_id.to_owned()));
        }
        let held = execution.held;
        let lease_id = execution.lease_id.clone();
        execution.state = ExecutionState::Released;
        execution.completed_at_ms = Some(now_ms);
        self.executions.insert(reservation_id.to_owned(), execution);
        let account = match self.accounts.get(lease_id.as_str()) {
            Some(a) => *a,
            None => {
                return Err(BudgetError::UnknownLease(lease_id));
            },
        };
        self.accounts.insert(
            lease_id,
            LeaseAccount {
                caps: account.caps,
                reserved_out: account.reserved_out,
                exec_held: account.exec_held.saturating_sub(&held),
                consumed: account.consumed,
            },
        );
        Ok(held)
    }

    /// The execution reservation under `id`.
    pub fn get_execution(&self, id: &str) -> (r: Option<ExecutionReservation>)
        requires
            self.wf(),
        ensures
            match r {
                Some(e) => self@.executions.dom().contains(id@) && e@ == self@.executions[id@],
                None => !self@.executions.dom().contains(id@),
            },
    {
        match self.executions.get(id) {
            Some(e) => Some(e.clone()),
            None => None,
        }
    }

    /// Remaining balance of a lease: caps without active reservations, held
    /// executions and consumption.
    pub fn remaining(&self, lease_id: &str) -> (r: Result<Budget, BudgetError>)
        requires
            self.wf(),
        ensures
            budget_outcome(r) == (if !self@.accounts.dom().contains(lease_id@) {
                Err(BudgetErrorView::UnknownLease(lease_id@))
            } else if !self@.accounts[lease_id@].total_fits() {
                Err(BudgetErrorView::Overflow)
            } else {
                Ok(self@.accounts[lease_id@].balance())
            }),
    {
        match self.accounts.get(lease_id) {
            Some(a) => match a.remaining() {
                Some(b) => Ok(b),
                None => Err(BudgetError::Overflow),
            },
            None => Err(BudgetError::UnknownLease(lease_id.to_owned())),
        }
    }

    /// The caps, reserved, held and consumed budgets of a lease's account.
    pub fn account_summary(&self, lease_id: &str) -> (r: Option<(Budget, Budget, Budget, Budget)>)
        requires
            self.wf(),
        ensures
            r == (if self@.accounts.dom().contains(lease_id@) {
                let a = self@.accounts[lease_id@];
                Some((a.caps, a.reserved_out, a.exec_held, a.consumed))
            } else {
                None
            }),
    {
        match self.accounts.get(lease_id) {
            Some(a) => Some((a.caps, a.reserved_out, a.exec_held, a.consumed)),
            None => None,
        }
    }
}

impl Default for BudgetLedger {
    fn default() -> (r: BudgetLedger)
        ensures
            r.wf(),
            r@ == LedgerView::empty(),
    {
        BudgetLedger::new()
    }
}

fn rollback_failed(lease_id: &str, reason: &str) -> (r: BudgetError)
    ensures
        r@ == BudgetErrorView::RollbackFailed(lease_id@, reason@),
{
    BudgetError::RollbackFailed(lease_id.to_owned(), reason.to_owned())
}

fn replay_receipt(receipt: &DebitReceipt, target: &str, actual: &Budget, key: &str) -> (r: Result<
    DebitReceipt,
    BudgetError,
>)
    ensures
        outcome(r) == LedgerView::replay(receipt@, target@, *actual, key@),
{
    if receipt.actual == *actual && str_eq(receipt.reservation_id.as_str(), target) {
        Ok(receipt.clone())
    } else {
        Err(BudgetError::IdempotencyConflict(key.to_owned()))
    }
}

impl LedgerView {
    /// `list` holds each execution of the ledger that `want` selects, once.
    pub open spec fn lists_executions(
        self,
        list: Seq<ExecutionReservation>,
        want: spec_fn(ExecutionView) -> bool,
    ) -> bool {
        &&& forall|i: int|
            #![trigger list[i]]
            0 <= i < list.len() ==> self.executions.dom().contains(list[i]@.id)
                && self.executions[list[i]@.id] == list[i]@ && want(list[i]@)
        &&& forall|i: int, j: int|
            #![trigger list[i], list[j]]
            0 <= i < j < list.len() ==> list[i]@.id != list[j]@.id
        &&& forall|id: Seq<char>| #[trigger]
            self.executions.dom().contains(id) && want(self.executions[id]) ==> exists|i: int|
                0 <= i < list.len() && (#[trigger] list[i])@.id == id
    }

    /// `list` holds each active reservation of the ledger, once.
    pub open spec fn lists_active(self, list: Seq<Reservation>) -> bool {
        &&& forall|i: int|
            #![trigger list[i]]
            0 <= i < list.len() ==> self.reservations.dom().contains(list[i]@.id)
                && self.reservations[list[i]@.id] == list[i]@ && list[i]@.state
                == ReservationState::Active
        &&& forall|i: int, j: int|
            #![trigger list[i], list[j]]
            0 <= i < j < list.len() ==> list[i]@.id != list[j]@.id
        &&& forall|id: Seq<char>| #[trigger]
            self.reservations.dom().contains(id) && self.reservations[id].state
                == ReservationState::Active ==> exists|i: int|
                0 <= i < list.len() && (#[trigger] list[i])@.id == id
    }

    /// Every account keeps the fan-out invariant.
    pub open spec fn solvent(self) -> bool {
        forall|lease: Seq<char>| #[trigger]
            self.accounts.dom().contains(lease) ==> self.accounts[lease].solvent()
    }

    /// Releases each of `ids` in turn, and gives the ids whose release
    /// succeeded.
    pub open spec fn release_each(self, ids: Seq<Seq<char>>, now: i64) -> (
        LedgerView,
        Seq<Seq<char>>,
    )
        decreases ids.len(),
    {
        if ids.len() == 0 {
            (self, Seq::empty())
        } else {
            let (l, done) = self.release_each(ids.drop_last(), now);
            let (l2, r) = l.release(ids.last(), now);
            (
                l2,
                if r is Ok {
                    done.push(ids.last())
                } else {
                    done
                },
            )
        }
    }

    /// `is_live` answers `live` for the child of reservation `id`.
    pub open spec fn answers<F: Fn(&str) -> bool>(
        self,
        is_live: F,
        id: Seq<char>,
        live: bool,
    ) -> bool {
        exists|s: &str|
            s@ == self.reservations[id].child_lease_id && #[trigger] call_ensures(
                is_live,
                (s,),
                live,
            )
    }

    /// `ids` are the active reservations whose child `is_live` denies.
    pub open spec fn dead_children<F: Fn(&str) -> bool>(
        self,
        is_live: F,
        ids: Seq<Seq<char>>,
    ) -> bool {
        &&& ids.no_duplicates()
        &&& forall|i: int|
            #![trigger ids[i]]
            0 <= i < ids.len() ==> self.reservations.dom().contains(ids[i])
                && self.reservations[ids[i]].state == ReservationState::Active && self.answers(
                is_live,
                ids[i],
                false,
            )
        &&& forall|id: Seq<char>| #[trigger]
            self.reservations.dom().contains(id) && self.reservations[id].state
                == ReservationState::Active && !ids.contains(id) ==> self.answers(
                is_live,
                id,
                true,
            )
    }
}

impl BudgetLedger {
    /// Every held execution reservation.
    pub fn active_executions(&self) -> (r: Vec<ExecutionReservation>)
        requires
            self.wf(),
        ensures
            self@.lists_executions(r@, |e: ExecutionView| e.state == ExecutionState::Held),
    {
        self.executions_in(true)
    }

    /// Every execution reservation, held or terminal.
    pub fn all_executions(&self) -> (r: Vec<ExecutionReservation>)
        requires
            self.wf(),
        ensures
            self@.lists_executions(r@, |e: ExecutionView| true),
    {
        self.executions_in(false)
    }

    fn executions_in(&self, held_only: bool) -> (r: Vec<ExecutionReservation>)
        requires
            self.wf(),
        ensures
            self@.lists_executions(
                r@,
                |e: ExecutionView| held_only ==> e.state == ExecutionState::Held,
            ),
            held_only ==> self@.lists_executions(
                r@,
                |e: ExecutionView| e.state == ExecutionState::Held,
            ),
            !held_only ==> self@.lists_executions(r@, |e: ExecutionView| true),
    {
        let ghost want = |e: ExecutionView| held_only ==> e.state == ExecutionState::Held;
        let ghost keys = self.executions.keys();
        let mut out: Vec<ExecutionReservation> = Vec::new();
        let mut i: usize = 0;
        while i < self.executions.len()
            invariant
                self.wf(),
                keys == self.executions.keys(),
                want == (|e: ExecutionView| held_only ==> e.state == ExecutionState::Held),
                i <= keys.len(),
                forall|a: int|
                    #![trigger out@[a]]
                    0 <= a < out@.len() ==> self@.executions.dom().contains(out@[a]@.id)
                        && self@.executions[out@[a]@.id] == out@[a]@ && want(out@[a]@) && (exists|
                        k: int,
                    |
                        0 <= k < i && #[trigger] keys[k] == out@[a]@.id),
                forall|a: int, b: int|
                    #![trigger out@[a], out@[b]]
                    0 <= a < b < out@.len() ==> out@[a]@.id != out@[b]@.id,
                forall|k: int|
                    0 <= k < i && want(self@.executions[#[trigger] keys[k]]) ==> exists|a: int|
                        0 <= a < out@.len() && (#[trigger] out@[a])@.id == keys[k],
            decreases keys.len() - i,
        {
            let e = self.executions.value_at(i);
            if !held_only || e.state == ExecutionState::Held {
                let ghost before = out@;
                out.push(e.clone());
                proof {
                    assert(out@[before.len() as int]@.id == keys[i as int]);
                    assert forall|k: int|
                        0 <= k < i + 1 && want(self@.executions[#[trigger] keys[k]]) implies exists|
                        a: int,
                    |
                        0 <= a < out@.len() && (#[trigger] out@[a])@.id == keys[k] by {
                        if k < i {
                            let a = choose|a: int|
                                0 <= a < before.len() && (#[trigger] before[a])@.id == keys[k];
                            assert(out@[a]@.id == keys[k]);
                        } else {
                            assert(out@[before.len() as int]@.id == keys[k]);
                        }
                    }
                }
            }
            i += 1;
        }
        proof {
            table_keys(&self.executions);
            assert forall|id: Seq<char>| #[trigger]
                self@.executions.dom().contains(id) && want(self@.executions[id]) implies exists|
                a: int,
            |
                0 <= a < out@.len() && (#[trigger] out@[a])@.id == id by {
                let k = choose|k: int| 0 <= k < keys.len() && keys[k] == id;
                assert(keys[k] == id);
            }
            assert(self@.lists_executions(out@, want));
        }
        out
    }

    /// Every active reservation.
    pub fn active_reservations(&self) -> (r: Vec<Reservation>)
        requires
            self.wf(),
        ensures
            self@.lists_active(r@),
    {
        let ghost keys = self.reservations.keys();
        let mut out: Vec<Reservation> = Vec::new();
        let mut i: usize = 0;
        while i < self.reservations.len()
            invariant
                self.wf(),
                keys == self.reservations.keys(),
                i <= keys.len(),
                forall|a: int|
                    #![trigger out@[a]]
                    0 <= a < out@.len() ==> self@.reservations.dom().contains(out@[a]@.id)
                        && self@.reservations[out@[a]@.id] == out@[a]@ && out@[a]@.state
                        == ReservationState::Active && (exists|k: int|
                        0 <= k < i && #[trigger] keys[k] == out@[a]@.id),
                forall|a: int, b: int|
                    #![trigger out@[a], out@[b]]
                    0 <= a < b < out@.len() ==> out@[a]@.id != out@[b]@.id,
                forall|k: int|
                    0 <= k < i && self@.reservations[#[trigger] keys[k]].state
                        == ReservationState::Active ==> exists|a: int|
                        0 <= a < out@.len() && (#[trigger] out@[a])@.id == keys[k],
            decreases keys.len() - i,
        {
            let r = self.reservations.value_at(i);
            if r.state == ReservationState::Active {
                let ghost before = out@;
                out.push(r.clone());
                proof {
                    assert(out@[before.len() as int]@.id == keys[i as int]);
                    assert forall|k: int|
                        0 <= k < i + 1 && self@.reservations[#[trigger] keys[k]].state
                            == ReservationState::Active implies exists|a: int|
                        0 <= a < out@.len() && (#[trigger] out@[a])@.id == keys[k] by {
                        if k < i {
                            let a = choose|a: int|
                                0 <= a < before.len() && (#[trigger] before[a])@.id == keys[k];
                            assert(out@[a]@.id == keys[k]);
                        } else {
                            assert(out@[before.len() as int]@.id == keys[k]);
                        }
                    }
                }
            }
            i += 1;
        }
        proof {
            table_keys(&self.reservations);
            assert forall|id: Seq<char>| #[trigger]
                self@.reservations.dom().contains(id) && self@.reservations[id].state
                    == ReservationState::Active implies exists|a: int|
                0 <= a < out@.len() && (#[trigger] out@[a])@.id == id by {
                let k = choose|k: int| 0 <= k < keys.len() && keys[k] == id;
                assert(keys[k] == id);
            }
        }
        out
    }

    /// Releases every active reservation whose child lease is no longer live,
    /// as `is_live` answers. Gives the ids of the released reservations.
    pub fn reconcile<F: Fn(&str) -> bool>(&mut self, is_live: &F, now_ms: i64) -> (r: Vec<String>)
        requires
            old(self).wf(),
            forall|s: &str| call_requires(*is_live, (s,)),
        ensures
            final(self).wf(),
            exists|ids: Seq<Seq<char>>| #[trigger]
                old(self)@.dead_children(*is_live, ids) && (
                    final(self)@,
                    r@.map_values(|s: String| s@),
                ) == old(self)@.release_each(ids, now_ms),
    {
        let active = self.active_reservations();
        let mut ids: Vec<String> = Vec::new();
        let ghost start = self@;
        let ghost mut idv: Seq<Seq<char>> = Seq::empty();
        let mut i: usize = 0;
        while i < active.len()
            invariant
                start == self@,
                start.lists_active(active@),
                forall|s: &str| call_requires(*is_live, (s,)),
                i <= active@.len(),
                idv == ids@.map_values(|s: String| s@),
                idv.no_duplicates(),
                forall|a: int|
                    #![trigger idv[a]]
                    0 <= a < idv.len() ==> start.reservations.dom().contains(idv[a])
                        && start.reservations[idv[a]].state == ReservationState::Active
                        && start.answers(*is_live, idv[a], false) && (exists|k: int|
                        0 <= k < i && (#[trigger] active@[k])@.id == idv[a]),
                forall|k: int|
                    #![trigger active@[k]]
                    0 <= k < i && !idv.contains(active@[k]@.id) ==> start.answers(
                        *is_live,
                        active@[k]@.id,
                        true,
                    ),
            decreases active@.len() - i,
        {
            let s = active[i].child_lease_id.as_str();
            let live = is_live(s);
            let ghost before = idv;
            let ghost id = active@[i as int]@.id;
            proof {
                assert(start.reservations[id].child_lease_id == s@);
                assert(start.answers(*is_live, id, live));
            }
            if !live {
                ids.push(active[i].id.clone());
                proof {
                    idv = before.push(id);
                    assert(idv =~= ids@.map_values(|s: String| s@));
                    assert forall|a: int|
                        #![trigger idv[a]]
                        0 <= a < idv.len() implies start.reservations.dom().contains(idv[a])
                        && start.reservations[idv[a]].state == ReservationState::Active
                        && start.answers(*is_live, idv[a], false) && (exists|k: int|
                        0 <= k < i + 1 && (#[trigger] active@[k])@.id == idv[a]) by {
                        if a < before.len() {
                            assert(idv[a] == before[a]);
                            let k = choose|k: int|
                                0 <= k < i && (#[trigger] active@[k])@.id == before[a];
                            assert(active@[k]@.id == idv[a]);
                        } else {
                            assert(active@[i as int]@.id == idv[a]);
                        }
                    }
                    assert(idv.no_duplicates()) by {
                        assert forall|a: int| 0 <= a < before.len() implies before[a] != id by {
                            let k = choose|k: int|
                                0 <= k < i && (#[trigger] active@[k])@.id == before[a];
                            assert(active@[k]@.id != active@[i as int]@.id);
                        }
                    }
                    assert forall|k: int|
                        #![trigger active@[k]]
                        0 <= k < i + 1 && !idv.contains(active@[k]@.id) implies start.answers(
                        *is_live,
                        active@[k]@.id,
                        true,
                    ) by {
                        if k < i {
                            if before.contains(active@[k]@.id) {
                                let a = choose|a: int|
                                    0 <= a < before.len() && before[a] == active@[k]@.id;
                                assert(idv[a] == active@[k]@.id);
                            }
                        } else {
                            assert(idv[before.len() as int] == active@[k]@.id);
                        }
                    }
                }
            }
            i += 1;
        }
        proof {
            assert forall|id: Seq<char>| #[trigger]
                start.reservations.dom().contains(id) && start.reservations[id].state
                    == ReservationState::Active && !idv.contains(id) implies start.answers(
                *is_live,
                id,
                true,
            ) by {
                let k = choose|k: int| 0 <= k < active@.len() && (#[trigger] active@[k])@.id == id;
                assert(active@[k]@.id == id);
            }
            assert(start.dead_children(*is_live, idv));
        }
        let mut released: Vec<String> = Vec::new();
        let mut j: usize = 0;
        proof {
            assert(idv.take(0) =~= Seq::<Seq<char>>::empty());
            assert(released@.map_values(|s: String| s@) =~= Seq::<Seq<char>>::empty());
        }
        while j < ids.len()
            invariant
                self.wf(),
                j <= ids@.len(),
                idv == ids@.map_values(|s: String| s@),
                (self@, released@.map_values(|s: String| s@)) == start.release_each(
                    idv.take(j as int),
                    now_ms,
                ),
            decreases ids@.len() - j,
        {
            let ghost before = released@;
            proof {
                assert(idv.take(j + 1).drop_last() =~= idv.take(j as int));
                assert(idv.take(j + 1).last() == ids@[j as int]@);
            }
            let outcome = self.release(ids[j].as_str(), now_ms);
            if outcome.is_ok() {
                released.push(ids[j].clone());
                proof {
                    assert(released@.map_values(|s: String| s@) =~= before.map_values(
                        |s: String| s@,
                    ).push(ids@[j as int]@));
                }
            }
            j += 1;
        }
        proof {
            assert(idv.take(idv.len() as int) =~= idv);
        }
        released
    }

    /// Checks the fan-out invariant of every lease: active child holds, held
    /// executions and consumption stay within the caps.
    pub fn check_invariants(&self) -> (r: Result<(), BudgetError>)
        requires
            self.wf(),
        ensures
            r is Ok <==> self@.solvent(),
            match r {
                Ok(_) => true,
                Err(BudgetError::Overflow) => exists|lease: Seq<char>| #[trigger]
                    self@.accounts.dom().contains(lease) && !self@.accounts[lease].total_fits(),
                Err(e) => exists|lease: Seq<char>| #[trigger]
                    self@.accounts.dom().contains(lease) && self@.accounts[lease].total_fits()
                        && !self@.accounts[lease].solvent() && e@ == (
                    BudgetErrorView::Insufficient {
                        lease,
                        dimension: "invariant"@,
                        needed: 0,
                        remaining: 0,
                    }),
            },
    {
        let mut i: usize = 0;
        while i < self.accounts.len()
            invariant
                self.wf(),
                i <= self.accounts.keys().len(),
                forall|j: int|
                    0 <= j < i ==> self@.accounts[#[trigger] self.accounts.keys()[j]].solvent(),
            decreases self.accounts.keys().len() - i,
        {
            let account = self.accounts.value_at(i);
            let ghost lease = self.accounts.keys()[i as int];
            proof {
                assert(self@.accounts.dom().contains(lease));
            }
            let total = match account.total_held() {
                Some(t) => t,
                None => {
                    return Err(BudgetError::Overflow);
                },
            };
            if !account.caps.covers(&total) {
                return Err(
                    BudgetError::Insufficient {
                        lease: self.accounts.key_at(i).clone(),
                        dimension: "invariant",
                        needed: 0,
                        remaining: 0,
                    },
                );
            }
            i += 1;
        }
        proof {
            table_keys(&self.accounts);
        }
        Ok(())
    }
}

} // verus!
