//! Execution budget lifecycle: reserve, dispatch, settle or release.
//!
//! The durable store row is the authority and the ledger follows it. The store
//! is read and written by the caller, who hands the driver what came back; the
//! driver decides what to write next and moves the ledger. Every transition is
//! idempotent, so retries and crashes never double-charge or lose a hold.
//!
//! What a boot makes of each reservation and each lease stands here; the order
//! in which it asks the store for them is in the module `boot`.

use crate::budget::{
    outcome, Budget, BudgetError, BudgetErrorView, BudgetLedger, DebitReceipt,
    ExecutionReservation, ExecutionState, ExecutionView, LedgerView, ReceiptView, Reservation,
    ReservationView,
};
use crate::text::concat;
use vstd::prelude::*;

verus! {

/// What a boot reconciliation did.
#[derive(Clone, Debug)]
pub struct BootReconciliation {
    /// Leases whose accounts were rehydrated from the store.
    pub rehydrated_leases: usize,
    /// Executions settled because their actions completed.
    pub settled: Vec<String>,
    /// Executions released because their actions never completed.
    pub released: Vec<String>,
    /// Rows that could not be reconciled, each with the reason.
    pub errors: Vec<(String, String)>,
}

/// The model of a `BootReconciliation`.
#[verifier::ext_equal]
pub struct ReportView {
    pub rehydrated_leases: nat,
    pub settled: Seq<Seq<char>>,
    pub released: Seq<Seq<char>>,
    pub errors: Seq<(Seq<char>, Seq<char>)>,
}

impl View for BootReconciliation {
    type V = ReportView;

    open spec fn view(&self) -> ReportView {
        ReportView {
            rehydrated_leases: self.rehydrated_leases as nat,
            settled: self.settled@.map_values(|s: String| s@),
            released: self.released@.map_values(|s: String| s@),
            errors: self.errors@.map_values(|e: (String, String)| (e.0@, e.1@)),
        }
    }
}

impl ReportView {
    /// The report before anything was reconciled.
    pub open spec fn empty() -> ReportView {
        ReportView {
            rehydrated_leases: 0,
            settled: Seq::empty(),
            released: Seq::empty(),
            errors: Seq::empty(),
        }
    }

    pub open spec fn with_error(self, id: Seq<char>, reason: Seq<char>) -> ReportView {
        ReportView { errors: self.errors.push((id, reason)), ..self }
    }

    pub open spec fn with_settled(self, id: Seq<char>) -> ReportView {
        ReportView { settled: self.settled.push(id), ..self }
    }

    pub open spec fn with_released(self, id: Seq<char>) -> ReportView {
        ReportView { released: self.released.push(id), ..self }
    }

    pub open spec fn with_leases(self, n: nat) -> ReportView {
        ReportView { rehydrated_leases: self.rehydrated_leases + n, ..self }
    }
}

impl BootReconciliation {
    /// An empty report.
    pub fn new() -> (r: BootReconciliation)
        ensures
            r@ == ReportView::empty(),
            r.rehydrated_leases == 0,
    {
        let r = BootReconciliation {
            rehydrated_leases: 0,
            settled: Vec::new(),
            released: Vec::new(),
            errors: Vec::new(),
        };
        proof {
            assert(r@ =~= ReportView::empty());
        }
        r
    }

    fn push_error(&mut self, id: &String, reason: String)
        ensures
            final(self)@ == old(self)@.with_error(id@, reason@),
            final(self).rehydrated_leases == old(self).rehydrated_leases,
    {
        let ghost before = self.errors@;
        let ghost why = reason@;
        self.errors.push((id.clone(), reason));
        proof {
            assert(self.errors@.map_values(|e: (String, String)| (e.0@, e.1@))
                =~= before.map_values(|e: (String, String)| (e.0@, e.1@)).push((id@, why)));
        }
    }

    fn push_settled(&mut self, id: &String)
        ensures
            final(self)@ == old(self)@.with_settled(id@),
            final(self).rehydrated_leases == old(self).rehydrated_leases,
    {
        let ghost before = self.settled@;
        self.settled.push(id.clone());
        proof {
            assert(self.settled@.map_values(|s: String| s@) =~= before.map_values(
                |s: String| s@,
            ).push(id@));
        }
    }

    fn push_released(&mut self, id: &String)
        ensures
            final(self)@ == old(self)@.with_released(id@),
            final(self).rehydrated_leases == old(self).rehydrated_leases,
    {
        let ghost before = self.released@;
        self.released.push(id.clone());
        proof {
            assert(self.released@.map_values(|s: String| s@) =~= before.map_values(
                |s: String| s@,
            ).push(id@));
        }
    }
}

impl Default for BootReconciliation {
    fn default() -> (r: BootReconciliation)
        ensures
            r@ == ReportView::empty(),
            r.rehydrated_leases == 0,
    {
        BootReconciliation::new()
    }
}

/// What the caller does next to settle or release an execution.
#[derive(Debug)]
pub enum StoreStep<T> {
    /// Write this row, and report the outcome.
    Write(ExecutionReservation),
    /// The write failed for this reason: read the row again, and report it.
    Reread(String),
    /// Nothing is left to do.
    Done(Result<T, BudgetError>),
}

/// The model of a `StoreStep`.
pub enum StoreStepView<T> {
    Write(ExecutionView),
    Reread(Seq<char>),
    Done(Result<T, BudgetErrorView>),
}

/// The model of a step that ends in a receipt.
pub open spec fn settle_step_view(s: StoreStep<DebitReceipt>) -> StoreStepView<ReceiptView> {
    match s {
        StoreStep::Write(r) => StoreStepView::Write(r@),
        StoreStep::Reread(e) => StoreStepView::Reread(e@),
        StoreStep::Done(r) => StoreStepView::Done(outcome(r)),
    }
}

/// The model of a step that ends in a budget.
pub open spec fn release_step_view(s: StoreStep<Budget>) -> StoreStepView<Budget> {
    match s {
        StoreStep::Write(r) => StoreStepView::Write(r@),
        StoreStep::Reread(e) => StoreStepView::Reread(e@),
        StoreStep::Done(r) => StoreStepView::Done(
            match r {
                Ok(b) => Ok(b),
                Err(e) => Err(e@),
            },
        ),
    }
}

/// The model of a row that was read from the store.
pub open spec fn read_view(r: Result<Option<ExecutionReservation>, String>) -> Result<
    Option<ExecutionView>,
    Seq<char>,
> {
    match r {
        Ok(Some(e)) => Ok(Some(e@)),
        Ok(None) => Ok(None),
        Err(e) => Err(e@),
    }
}

/// The model of the outcome of a write.
pub open spec fn write_view(r: Result<(), String>) -> Result<(), Seq<char>> {
    match r {
        Ok(_) => Ok(()),
        Err(e) => Err(e@),
    }
}

/// The ledger follows a settled row. A ledger that does not hold the
/// execution answers from the row.
pub open spec fn follow_settle(
    l: LedgerView,
    row: ExecutionView,
    id: Seq<char>,
    actual: Budget,
    key: Seq<char>,
    now: i64,
) -> (LedgerView, Result<ReceiptView, BudgetErrorView>) {
    let (l2, r) = l.settle_execution(id, actual, key, now);
    match r {
        Err(BudgetErrorView::UnknownReservation(_)) | Err(BudgetErrorView::ExecutionNotHeld(_)) => (
            l2,
            Ok(
                ReceiptView {
                    reservation_id: id,
                    actual: match row.actual {
                        Some(b) => b,
                        None => Budget::zero(),
                    },
                    debited_at_ms: match row.completed_at_ms {
                        Some(t) => t,
                        None => now,
                    },
                },
            ),
        ),
        other => (l2, other),
    }
}

/// The answer to a settle that finds its row settled already.
pub open spec fn replay_settled(
    l: LedgerView,
    row: ExecutionView,
    id: Seq<char>,
    actual: Budget,
    key: Seq<char>,
    now: i64,
) -> (LedgerView, StoreStepView<ReceiptView>) {
    if row.actual != Some(actual) {
        (l, StoreStepView::Done(Err(BudgetErrorView::IdempotencyConflict(key))))
    } else {
        let (l2, r) = follow_settle(l, row, id, actual, key, now);
        (l2, StoreStepView::Done(r))
    }
}

/// The row of a settled execution.
pub open spec fn settled_row(row: ExecutionView, actual: Budget, now: i64) -> ExecutionView {
    ExecutionView {
        state: ExecutionState::Settled,
        actual: Some(actual),
        completed_at_ms: Some(now),
        ..row
    }
}

/// The row of a released execution.
pub open spec fn released_row(row: ExecutionView, now: i64) -> ExecutionView {
    ExecutionView { state: ExecutionState::Released, completed_at_ms: Some(now), ..row }
}

/// The first step of a settle, after the row was read: a held row is to be
/// written as settled, a settled one is replayed, and a released one refused.
pub open spec fn settle_on_read(
    l: LedgerView,
    read: Result<Option<ExecutionView>, Seq<char>>,
    id: Seq<char>,
    actual: Budget,
    key: Seq<char>,
    now: i64,
) -> (LedgerView, StoreStepView<ReceiptView>) {
    match read {
        Err(e) => (l, StoreStepView::Done(Err(BudgetErrorView::Store(e)))),
        Ok(None) => (l, StoreStepView::Done(Err(BudgetErrorView::UnknownReservation(id)))),
        Ok(Some(row)) => match row.state {
            ExecutionState::Settled => replay_settled(l, row, id, actual, key, now),
            ExecutionState::Held => (l, StoreStepView::Write(settled_row(row, actual, now))),
            ExecutionState::Released => (
                l,
                StoreStepView::Done(Err(BudgetErrorView::ExecutionNotHeld(id))),
            ),
        },
    }
}

/// The last step of a settle whose write failed with `update_err`: the row
/// was moved by another writer, whose outcome is replayed, or the store is at
/// fault.
pub open spec fn settle_on_reread(
    l: LedgerView,
    update_err: Seq<char>,
    read: Result<Option<ExecutionView>, Seq<char>>,
    id: Seq<char>,
    actual: Budget,
    key: Seq<char>,
    now: i64,
) -> (LedgerView, StoreStepView<ReceiptView>) {
    match read {
        Err(e) => (l, StoreStepView::Done(Err(BudgetErrorView::Store(e)))),
        Ok(None) => (l, StoreStepView::Done(Err(BudgetErrorView::UnknownReservation(id)))),
        Ok(Some(row)) => match row.state {
            ExecutionState::Settled => replay_settled(l, row, id, actual, key, now),
            ExecutionState::Released => (
                l,
                StoreStepView::Done(Err(BudgetErrorView::ExecutionNotHeld(id))),
            ),
            ExecutionState::Held => (
                l,
                StoreStepView::Done(Err(BudgetErrorView::Store(update_err))),
            ),
        },
    }
}

/// The ledger follows a released row. A ledger that does not hold the
/// execution answers with what the row held.
pub open spec fn follow_release(l: LedgerView, row: ExecutionView, id: Seq<char>, now: i64) -> (
    LedgerView,
    Result<Budget, BudgetErrorView>,
) {
    let (l2, r) = l.release_execution(id, now);
    match r {
        Err(BudgetErrorView::UnknownReservation(_)) | Err(BudgetErrorView::ExecutionNotHeld(_)) => (
            l2,
            Ok(row.held),
        ),
        other => (l2, other),
    }
}

/// The first step of a release, after the row was read.
pub open spec fn release_on_read(
    l: LedgerView,
    read: Result<Option<ExecutionView>, Seq<char>>,
    id: Seq<char>,
    now: i64,
) -> (LedgerView, StoreStepView<Budget>) {
    match read {
        Err(e) => (l, StoreStepView::Done(Err(BudgetErrorView::Store(e)))),
        Ok(None) => (l, StoreStepView::Done(Err(BudgetErrorView::UnknownReservation(id)))),
        Ok(Some(row)) => match row.state {
            ExecutionState::Settled => (
                l,
                StoreStepView::Done(Err(BudgetErrorView::ExecutionNotHeld(id))),
            ),
            ExecutionState::Held => (l, StoreStepView::Write(released_row(row, now))),
            ExecutionState::Released => {
                let (l2, r) = follow_release(l, row, id, now);
                (l2, StoreStepView::Done(r))
            },
        },
    }
}

/// Drives the execution budget lifecycle on a ledger.
#[derive(Debug)]
pub struct ExecutionDriver {
    pub ledger: BudgetLedger,
}

impl ExecutionDriver {
    /// A driver over `ledger`.
    pub fn new(ledger: BudgetLedger) -> (r: ExecutionDriver)
        ensures
            r.ledger == ledger,
    {
        ExecutionDriver { ledger }
    }

    /// Whether a reservation is still to be inserted, given the row that
    /// stands in the store under its id: persisting it again is a no-op.
    pub fn persist_reservation(existing: &Option<ExecutionReservation>) -> (r: bool)
        ensures
            r == (existing is None),
    {
        existing.is_none()
    }

    fn follow_settled(
        &mut self,
        row: &ExecutionReservation,
        reservation_id: &str,
        actual: &Budget,
        idempotency_key: &str,
        now_ms: i64,
    ) -> (r: Result<DebitReceipt, BudgetError>)
        requires
            old(self).ledger.wf(),
        ensures
            final(self).ledger.wf(),
            (final(self).ledger@, outcome(r)) == follow_settle(
                old(self).ledger@,
                row@,
                reservation_id@,
                *actual,
                idempotency_key@,
                now_ms,
            ),
    {
        match self.ledger.settle_execution(reservation_id, actual, idempotency_key, now_ms) {
            Ok(receipt) => Ok(receipt),
            Err(BudgetError::UnknownReservation(_)) | Err(BudgetError::ExecutionNotHeld(_)) => Ok(
                DebitReceipt {
                    reservation_id: reservation_id.to_owned(),
                    actual: match row.actual {
                        Some(b) => b,
                        None => Budget::new(),
                    },
                    debited_at_ms: match row.completed_at_ms {
                        Some(t) => t,
                        None => now_ms,
                    },
                },
            ),
            Err(e) => Err(e),
        }
    }

    fn replay(
        &mut self,
        row: &ExecutionReservation,
        reservation_id: &str,
        actual: &Budget,
        idempotency_key: &str,
        now_ms: i64,
    ) -> (r: StoreStep<DebitReceipt>)
        requires
            old(self).ledger.wf(),
        ensures
            final(self).ledger.wf(),
            (final(self).ledger@, settle_step_view(r)) == replay_settled(
                old(self).ledger@,
                row@,
                reservation_id@,
                *actual,
                idempotency_key@,
                now_ms,
            ),
    {
        match check_settled_replay(row, actual, idempotency_key) {
            Err(e) => StoreStep::Done(Err(e)),
            Ok(_) => StoreStep::Done(
                self.follow_settled(row, reservation_id, actual, idempotency_key, now_ms),
            ),
        }
    }

    /// Settles an execution after dispatch, given the row that was read: the
    /// durable transition from held to settled comes first, then the ledger
    /// follows.
    pub fn settle(
        &mut self,
        read: Result<Option<ExecutionReservation>, String>,
        reservation_id: &str,
        actual: &Budget,
        idempotency_key: &str,
        now_ms: i64,
    ) -> (r: StoreStep<DebitReceipt>)
        requires
            old(self).ledger.wf(),
        ensures
            final(self).ledger.wf(),
            (final(self).ledger@, settle_step_view(r)) == settle_on_read(
                old(self).ledger@,
                read_view(read),
                reservation_id@,
                *actual,
                idempotency_key@,
                now_ms,
            ),
    {
        match read {
            Err(e) => StoreStep::Done(Err(BudgetError::Store(e))),
            Ok(None) => StoreStep::Done(
                Err(BudgetError::UnknownReservation(reservation_id.to_owned())),
            ),
            Ok(Some(row)) => match row.state {
                ExecutionState::Settled => self.replay(
                    &row,
                    reservation_id,
                    actual,
                    idempotency_key,
                    now_ms,
                ),
                ExecutionState::Held => StoreStep::Write(make_settled(&row, actual, now_ms)),
                ExecutionState::Released => StoreStep::Done(
                    Err(BudgetError::ExecutionNotHeld(reservation_id.to_owned())),
                ),
            },
        }
    }

    /// Goes on with a settle after `row` was written with outcome `wrote`.
    pub fn settle_written(
        &mut self,
        row: &ExecutionReservation,
        wrote: Result<(), String>,
        reservation_id: &str,
        actual: &Budget,
        idempotency_key: &str,
        now_ms: i64,
    ) -> (r: StoreStep<DebitReceipt>)
        requires
            old(self).ledger.wf(),
        ensures
            final(self).ledger.wf(),
            match write_view(wrote) {
                Err(e) => final(self).ledger@ == old(self).ledger@ && settle_step_view(r)
                    == StoreStepView::<ReceiptView>::Reread(e),
                Ok(_) => ({
                    let (l2, out) = follow_settle(
                        old(self).ledger@,
                        row@,
                        reservation_id@,
                        *actual,
                        idempotency_key@,
                        now_ms,
                    );
                    final(self).ledger@ == l2 && settle_step_view(r) == StoreStepView::Done(out)
                }),
            },
    {
        match wrote {
            Err(e) => StoreStep::Reread(e),
            Ok(_) => StoreStep::Done(
                self.follow_settled(row, reservation_id, actual, idempotency_key, now_ms),
            ),
        }
    }

    /// Ends a settle whose write failed, given the row as it now stands. A
    /// lost race against the same settle is a success.
    pub fn settle_reread(
        &mut self,
        update_err: String,
        read: Result<Option<ExecutionReservation>, String>,
        reservation_id: &str,
        actual: &Budget,
        idempotency_key: &str,
        now_ms: i64,
    ) -> (r: StoreStep<DebitReceipt>)
        requires
            old(self).ledger.wf(),
        ensures
            final(self).ledger.wf(),
            (final(self).ledger@, settle_step_view(r)) == settle_on_reread(
                old(self).ledger@,
                update_err@,
                read_view(read),
                reservation_id@,
                *actual,
                idempotency_key@,
                now_ms,
            ),
            r is Done,
    {
        match read {
            Err(e) => StoreStep::Done(Err(BudgetError::Store(e))),
            Ok(None) => StoreStep::Done(
                Err(BudgetError::UnknownReservation(reservation_id.to_owned())),
            ),
            Ok(Some(row)) => match row.state {
                ExecutionState::Settled => self.replay(
                    &row,
                    reservation_id,
                    actual,
                    idempotency_key,
                    now_ms,
                ),
                ExecutionState::Released => StoreStep::Done(
                    Err(BudgetError::ExecutionNotHeld(reservation_id.to_owned())),
                ),
                ExecutionState::Held => StoreStep::Done(Err(BudgetError::Store(update_err))),
            },
        }
    }

    fn follow_released(
        &mut self,
        row: &ExecutionReservation,
        reservation_id: &str,
        now_ms: i64,
    ) -> (r: Result<Budget, BudgetError>)
        requires
            old(self).ledger.wf(),
        ensures
            final(self).ledger.wf(),
            release_step_view(StoreStep::Done(r)) == StoreStepView::Done(
                follow_release(old(self).ledger@, row@, reservation_id@, now_ms).1,
            ),
            final(self).ledger@ == follow_release(
                old(self).ledger@,
                row@,
                reservation_id@,
                now_ms,
            ).0,
    {
        match self.ledger.release_execution(reservation_id, now_ms) {
            Ok(held) => Ok(held),
            Err(BudgetError::UnknownReservation(_)) | Err(BudgetError::ExecutionNotHeld(_)) => Ok(
                row.held,
            ),
            Err(e) => Err(e),
        }
    }

    /// Releases an execution that was never dispatched, given the row that
    /// was read. Releasing a released row again succeeds; a settled one is
    /// refused.
    pub fn release(
        &mut self,
        read: Result<Option<ExecutionReservation>, String>,
        reservation_id: &str,
        now_ms: i64,
    ) -> (r: StoreStep<Budget>)
        requires
            old(self).ledger.wf(),
        ensures
            final(self).ledger.wf(),
            (final(self).ledger@, release_step_view(r)) == release_on_read(
                old(self).ledger@,
                read_view(read),
                reservation_id@,
                now_ms,
            ),
    {
        match read {
            Err(e) => StoreStep::Done(Err(BudgetError::Store(e))),
            Ok(None) => StoreStep::Done(
                Err(BudgetError::UnknownReservation(reservation_id.to_owned())),
            ),
            Ok(Some(row)) => match row.state {
                ExecutionState::Settled => StoreStep::Done(
                    Err(BudgetError::ExecutionNotHeld(reservation_id.to_owned())),
                ),
                ExecutionState::Held => StoreStep::Write(make_released(&row, now_ms)),
                ExecutionState::Released => StoreStep::Done(
                    self.follow_released(&row, reservation_id, now_ms),
                ),
            },
        }
    }

    /// Ends a release after `row` was written with outcome `wrote`.
    pub fn release_written(
        &mut self,
        row: &ExecutionReservation,
        wrote: Result<(), String>,
        reservation_id: &str,
        now_ms: i64,
    ) -> (r: StoreStep<Budget>)
        requires
            old(self).ledger.wf(),
        ensures
            final(self).ledger.wf(),
            match write_view(wrote) {
                Err(e) => final(self).ledger@ == old(self).ledger@ && release_step_view(r)
                    == StoreStepView::<Budget>::Done(Err(BudgetErrorView::Store(e))),
                Ok(_) => ({
                    let (l2, out) = follow_release(
                        old(self).ledger@,
                        row@,
                        reservation_id@,
                        now_ms,
                    );
                    final(self).ledger@ == l2 && release_step_view(r) == StoreStepView::Done(out)
                }),
            },
    {
        match wrote {
            Err(e) => StoreStep::Done(Err(BudgetError::Store(e))),
            Ok(_) => StoreStep::Done(self.follow_released(row, reservation_id, now_ms)),
        }
    }
}

fn make_settled(row: &ExecutionReservation, actual: &Budget, now_ms: i64) -> (r:
    ExecutionReservation)
    ensures
        r@ == settled_row(row@, *actual, now_ms),
{
    let mut out = row.clone();
    out.state = ExecutionState::Settled;
    out.actual = Some(*actual);
    out.completed_at_ms = Some(now_ms);
    out
}

fn make_released(row: &ExecutionReservation, now_ms: i64) -> (r: ExecutionReservation)
    ensures
        r@ == released_row(row@, now_ms),
{
    let mut out = row.clone();
    out.state = ExecutionState::Released;
    out.completed_at_ms = Some(now_ms);
    out
}

/// A settled row answers the same actuals again, and refuses others.
pub fn check_settled_replay(
    stored: &ExecutionReservation,
    actual: &Budget,
    idempotency_key: &str,
) -> (r: Result<(), BudgetError>)
    ensures
        match r {
            Ok(_) => stored@.actual == Some(*actual),
            Err(e) => stored@.actual != Some(*actual) && e@
                == BudgetErrorView::IdempotencyConflict(idempotency_key@),
        },
{
    let same = match stored.actual {
        Some(b) => b == *actual,
        None => false,
    };
    if same {
        Ok(())
    } else {
        Err(BudgetError::IdempotencyConflict(idempotency_key.to_owned()))
    }
}

/// The ledger with an account for `lease`, and the number of accounts that
/// were added for it.
pub open spec fn ensure_account(l: LedgerView, lease: Seq<char>, caps: Budget) -> (
    LedgerView,
    nat,
) {
    if l.accounts.dom().contains(lease) {
        (l, 0)
    } else {
        (l.register(lease, caps).0, 1)
    }
}

/// Restores one active child reservation with the accounts it needs.
pub open spec fn boot_reservation_step(
    l: LedgerView,
    report: ReportView,
    res: ReservationView,
    parent_caps: Option<Budget>,
) -> (LedgerView, ReportView) {
    match parent_caps {
        None => (
            l,
            report.with_error(
                res.id,
                "no recorded caps for parent lease "@ + res.parent_lease_id,
            ),
        ),
        Some(caps) => {
            let (l1, n1) = ensure_account(l, res.parent_lease_id, caps);
            let (l2, n2) = ensure_account(l1, res.child_lease_id, res.held);
            let counted = report.with_leases(n1).with_leases(n2);
            match l2.rehydrate(res) {
                (l3, Ok(_)) => (l3, counted),
                (l3, Err(e)) => (
                    l3,
                    counted.with_error(res.id, "rehydrate reservation: "@ + e.message()),
                ),
            }
        },
    }
}

/// The debit key under which a boot charges an execution.
pub open spec fn boot_key(id: Seq<char>) -> Seq<char> {
    "boot:"@ + id
}

/// What a settled row consumed: the measured amount, or the estimate where
/// none was recorded.
pub open spec fn charged(row: ExecutionView) -> Budget {
    match row.actual {
        Some(b) => b,
        None => row.held,
    }
}

/// Reports every row of a lease whose caps were never recorded.
pub open spec fn report_missing_caps(
    report: ReportView,
    lease: Seq<char>,
    rows: Seq<ExecutionView>,
) -> ReportView
    decreases rows.len(),
{
    if rows.len() == 0 {
        report
    } else {
        report_missing_caps(report, lease, rows.drop_last()).with_error(
            rows.last().id,
            "no recorded caps for lease "@ + lease,
        )
    }
}

/// Charges the settled rows of a lease again, each once.
pub open spec fn reapply_settled(
    l: LedgerView,
    report: ReportView,
    lease: Seq<char>,
    rows: Seq<ExecutionView>,
    now: i64,
) -> (LedgerView, ReportView)
    decreases rows.len(),
{
    if rows.len() == 0 {
        (l, report)
    } else {
        let (l1, report1) = reapply_settled(l, report, lease, rows.drop_last(), now);
        let row = rows.last();
        if row.state == ExecutionState::Settled {
            match l1.charge_lease(lease, charged(row), boot_key(row.id), now) {
                (l2, Ok(_)) => (l2, report1),
                (l2, Err(e)) => (
                    l2,
                    report1.with_error(row.id, "re-apply settle: "@ + e.message()),
                ),
            }
        } else {
            (l1, report1)
        }
    }
}

/// The first half of a lease's reconciliation: its account and its settled
/// rows.
pub open spec fn boot_lease_step(
    l: LedgerView,
    report: ReportView,
    lease: Seq<char>,
    rows: Seq<ExecutionView>,
    caps: Option<Budget>,
    now: i64,
) -> (LedgerView, ReportView, bool) {
    if l.accounts.dom().contains(lease) {
        let (l2, report2) = reapply_settled(l, report, lease, rows, now);
        (l2, report2, true)
    } else {
        match caps {
            None => (l, report_missing_caps(report, lease, rows), false),
            Some(c) => {
                let (l1, n) = ensure_account(l, lease, c);
                let (l2, report2) = reapply_settled(
                    l1,
                    report.with_leases(n),
                    lease,
                    rows,
                    now,
                );
                (l2, report2, true)
            },
        }
    }
}

/// A held execution, whether its action dispatched before the crash, and the
/// row that ends it.
pub struct BootRowView {
    pub id: Seq<char>,
    pub held: Budget,
    pub completed: bool,
    pub row: ExecutionView,
}

/// The row that ends the held execution `e`: a completed action is settled at
/// its estimate, and the rest are released.
pub open spec fn boot_row(e: ExecutionView, completed: bool, now: i64) -> BootRowView {
    BootRowView {
        id: e.id,
        held: e.held,
        completed,
        row: if completed {
            settled_row(e, e.held, now)
        } else {
            released_row(e, now)
        },
    }
}

/// The held executions among `rows`.
pub open spec fn held_rows(rows: Seq<ExecutionView>) -> Seq<ExecutionView>
    decreases rows.len(),
{
    if rows.len() == 0 {
        Seq::empty()
    } else {
        let rest = held_rows(rows.drop_last());
        if rows.last().state == ExecutionState::Held {
            rest.push(rows.last())
        } else {
            rest
        }
    }
}

/// The views of a list of executions.
pub open spec fn execution_views(rows: Seq<ExecutionReservation>) -> Seq<ExecutionView> {
    rows.map_values(|e: ExecutionReservation| e@)
}

/// A held execution after the store was asked to write the row that ends it:
/// a completed action is charged, and a row that could not be written is
/// reported.
pub open spec fn boot_end_step(
    l: LedgerView,
    report: ReportView,
    lease: Seq<char>,
    row: BootRowView,
    wrote: Result<(), Seq<char>>,
    now: i64,
) -> (LedgerView, ReportView) {
    match wrote {
        Err(e) => (l, report.with_error(row.id, e)),
        Ok(_) => {
            if row.completed {
                match l.charge_lease(lease, row.held, boot_key(row.id), now) {
                    (l2, Ok(_)) => (l2, report.with_settled(row.id)),
                    (l2, Err(e)) => (
                        l2,
                        report.with_error(row.id, "boot settle: "@ + e.message()),
                    ),
                }
            } else {
                (l, report.with_released(row.id))
            }
        },
    }
}

/// The second half of a lease's reconciliation: its held executions, in order.
pub open spec fn boot_finish_steps(
    l: LedgerView,
    report: ReportView,
    lease: Seq<char>,
    rows: Seq<BootRowView>,
    wrote: Seq<Result<(), Seq<char>>>,
    now: i64,
) -> (LedgerView, ReportView)
    decreases rows.len(),
{
    if rows.len() == 0 || wrote.len() != rows.len() {
        (l, report)
    } else {
        let (l1, report1) = boot_finish_steps(
            l,
            report,
            lease,
            rows.drop_last(),
            wrote.drop_last(),
            now,
        );
        boot_end_step(l1, report1, lease, rows.last(), wrote.last(), now)
    }
}

impl ExecutionDriver {
    fn register_if_absent(&mut self, lease_id: &str, caps: &Budget, report: &mut BootReconciliation)
        requires
            old(self).ledger.wf(),
            old(report).rehydrated_leases < usize::MAX,
        ensures
            final(self).ledger.wf(),
            final(self).ledger@ == ensure_account(old(self).ledger@, lease_id@, *caps).0,
            final(report)@ == old(report)@.with_leases(
                ensure_account(old(self).ledger@, lease_id@, *caps).1,
            ),
            final(report).rehydrated_leases <= old(report).rehydrated_leases + 1,
    {
        if self.ledger.is_lease_registered(lease_id) {
            return;
        }
        let registered = self.ledger.register_lease(lease_id, caps);
        if registered.is_ok() {
            report.rehydrated_leases = report.rehydrated_leases + 1;
        }
    }

    /// Restores an active child reservation at boot, given the recorded caps
    /// of its parent: the parent's hold comes back with the consumption that
    /// was recorded, and both leases have an account afterwards.
    pub fn boot_reservation(
        &mut self,
        res: &Reservation,
        parent_caps: &Option<Budget>,
        report: &mut BootReconciliation,
    )
        requires
            old(self).ledger.wf(),
            old(report).rehydrated_leases + 1 < usize::MAX,
        ensures
            final(self).ledger.wf(),
            (final(self).ledger@, final(report)@) == boot_reservation_step(
                old(self).ledger@,
                old(report)@,
                res@,
                *parent_caps,
            ),
    {
        let caps = match parent_caps {
            Some(c) => c,
            None => {
                report.push_error(
                    &res.id,
                    concat("no recorded caps for parent lease ", res.parent_lease_id.as_str()),
                );
                return;
            },
        };
        self.register_if_absent(res.parent_lease_id.as_str(), caps, report);
        self.register_if_absent(res.child_lease_id.as_str(), &res.held, report);
        if let Err(e) = self.ledger.rehydrate_reservation(res) {
            report.push_error(&res.id, concat("rehydrate reservation: ", e.message().as_str()));
        }
    }

    /// Whether the recorded caps of `lease_id` are needed to reconcile it.
    pub fn needs_caps(&self, lease_id: &str) -> (r: bool)
        requires
            self.ledger.wf(),
        ensures
            r == !self.ledger@.accounts.dom().contains(lease_id@),
    {
        !self.ledger.is_lease_registered(lease_id)
    }

    /// Registers a lease at boot, unless it has an account, and charges its
    /// settled rows again, so that a crash never resurrects spent budget.
    /// Gives whether its held rows are to be ended.
    pub fn boot_lease(
        &mut self,
        lease_id: &str,
        rows: &Vec<ExecutionReservation>,
        caps: &Option<Budget>,
        now_ms: i64,
        report: &mut BootReconciliation,
    ) -> (r: bool)
        requires
            old(self).ledger.wf(),
            caps is Some ==> old(report).rehydrated_leases < usize::MAX,
        ensures
            final(self).ledger.wf(),
            (final(self).ledger@, final(report)@, r) == boot_lease_step(
                old(self).ledger@,
                old(report)@,
                lease_id@,
                execution_views(rows@),
                *caps,
                now_ms,
            ),
    {
        let ghost views = execution_views(rows@);
        if !self.ledger.is_lease_registered(lease_id) {
            match caps {
                Some(c) => {
                    self.register_if_absent(lease_id, c, report);
                },
                None => {
                    let mut i: usize = 0;
                    proof {
                        assert(views.take(0) =~= Seq::<ExecutionView>::empty());
                    }
                    while i < rows.len()
                        invariant
                            i <= rows@.len(),
                            views == execution_views(rows@),
                            report@ == report_missing_caps(
                                old(report)@,
                                lease_id@,
                                views.take(i as int),
                            ),
                        decreases rows@.len() - i,
                    {
                        proof {
                            assert(views.take(i + 1).drop_last() =~= views.take(i as int));
                            assert(views.take(i + 1).last() == rows@[i as int]@);
                        }
                        report.push_error(
                            &rows[i].id,
                            concat("no recorded caps for lease ", lease_id),
                        );
                        i += 1;
                    }
                    proof {
                        assert(views.take(views.len() as int) =~= views);
                    }
                    return false;
                },
            }
        }
        let ghost l1 = self.ledger@;
        let ghost report1 = report@;
        let mut i: usize = 0;
        proof {
            assert(views.take(0) =~= Seq::<ExecutionView>::empty());
        }
        while i < rows.len()
            invariant
                i <= rows@.len(),
                self.ledger.wf(),
                views == execution_views(rows@),
                (self.ledger@, report@) == reapply_settled(
                    l1,
                    report1,
                    lease_id@,
                    views.take(i as int),
                    now_ms,
                ),
            decreases rows@.len() - i,
        {
            proof {
                assert(views.take(i + 1).drop_last() =~= views.take(i as int));
                assert(views.take(i + 1).last() == rows@[i as int]@);
            }
            let row = &rows[i];
            if row.state == ExecutionState::Settled {
                let actual = match row.actual {
                    Some(b) => b,
                    None => row.held,
                };
                let key = concat("boot:", row.id.as_str());
                if let Err(e) = self.ledger.charge_lease(lease_id, &actual, key.as_str(), now_ms) {
                    report.push_error(&row.id, concat("re-apply settle: ", e.message().as_str()));
                }
            }
            i += 1;
        }
        proof {
            assert(views.take(views.len() as int) =~= views);
        }
        true
    }

    /// The row that ends a held execution.
    pub fn ended_row(held: &ExecutionReservation, completed: bool, now_ms: i64) -> (r:
        ExecutionReservation)
        ensures
            r@ == boot_row(held@, completed, now_ms).row,
    {
        if completed {
            make_settled(held, &held.held, now_ms)
        } else {
            make_released(held, now_ms)
        }
    }

    /// Ends a held execution after the row that ends it was written, or could
    /// not be.
    pub fn boot_end(
        &mut self,
        lease_id: &str,
        held: &ExecutionReservation,
        completed: bool,
        wrote: Result<(), String>,
        now_ms: i64,
        report: &mut BootReconciliation,
    )
        requires
            old(self).ledger.wf(),
        ensures
            final(self).ledger.wf(),
            (final(self).ledger@, final(report)@) == boot_end_step(
                old(self).ledger@,
                old(report)@,
                lease_id@,
                boot_row(held@, completed, now_ms),
                write_view(wrote),
                now_ms,
            ),
    {
        match wrote {
            Err(e) => {
                report.push_error(&held.id, e);
            },
            Ok(_) => {
                if completed {
                    let key = concat("boot:", held.id.as_str());
                    match self.ledger.charge_lease(lease_id, &held.held, key.as_str(), now_ms) {
                        Ok(_) => {
                            report.push_settled(&held.id);
                        },
                        Err(e) => {
                            report.push_error(
                                &held.id,
                                concat("boot settle: ", e.message().as_str()),
                            );
                        },
                    }
                } else {
                    report.push_released(&held.id);
                }
            },
        }
    }
}

/// A settle that is retried after its row was written answers with the same
/// receipt and charges nothing more.
pub proof fn retried_settle_replays(
    l: LedgerView,
    row: ExecutionView,
    id: Seq<char>,
    actual: Budget,
    key: Seq<char>,
    now: i64,
    later: i64,
)
    requires
        follow_settle(l, settled_row(row, actual, now), id, actual, key, now).1 is Ok,
    ensures
        ({
            let written = settled_row(row, actual, now);
            let (l2, receipt) = follow_settle(l, written, id, actual, key, now);
            settle_on_read(l2, Ok(Some(written)), id, actual, key, later) == (
                l2,
                StoreStepView::Done(receipt),
            )
        }),
{
}

/// A settle that loses a race against the same settle succeeds with the row's
/// actuals, and one that loses against other actuals is refused and leaves the
/// ledger.
pub proof fn lost_race_replays_or_conflicts(
    l: LedgerView,
    update_err: Seq<char>,
    winner: ExecutionView,
    id: Seq<char>,
    actual: Budget,
    key: Seq<char>,
    now: i64,
)
    requires
        winner.state == ExecutionState::Settled,
    ensures
        winner.actual == Some(actual) ==> settle_on_reread(
            l,
            update_err,
            Ok(Some(winner)),
            id,
            actual,
            key,
            now,
        ).1 == StoreStepView::Done(follow_settle(l, winner, id, actual, key, now).1),
        winner.actual != Some(actual) ==> settle_on_reread(
            l,
            update_err,
            Ok(Some(winner)),
            id,
            actual,
            key,
            now,
        ) == (
            l,
            StoreStepView::<ReceiptView>::Done(Err(BudgetErrorView::IdempotencyConflict(key))),
        ),
{
}

/// Restoring a reservation at boot a second time changes nothing: the hold is
/// never counted twice.
pub proof fn boot_reservation_is_idempotent(
    l: LedgerView,
    report: ReportView,
    report2: ReportView,
    res: ReservationView,
    caps: Budget,
)
    requires
        boot_reservation_step(l, report, res, Some(caps)).1.errors == report.errors,
    ensures
        ({
            let l2 = boot_reservation_step(l, report, res, Some(caps)).0;
            boot_reservation_step(l2, report2, res, Some(caps)) == (l2, report2)
        }),
{
    let (l1, n1) = ensure_account(l, res.parent_lease_id, caps);
    let (l2, n2) = ensure_account(l1, res.child_lease_id, res.held);
    if let (l3, Err(e)) = l2.rehydrate(res) {
        let r = report.with_leases(n1).with_leases(n2).with_error(
            res.id,
            "rehydrate reservation: "@ + e.message(),
        );
        assert(r.errors.len() == report.errors.len() + 1);
    }
    assert(report2.with_leases(0).with_leases(0) =~= report2);
}

/// Charging settled rows keeps the receipts that are there, and its errors
/// only grow.
proof fn reapply_keeps_receipts(
    l: LedgerView,
    report: ReportView,
    lease: Seq<char>,
    rows: Seq<ExecutionView>,
    now: i64,
)
    ensures
        ({
            let (l2, report2) = reapply_settled(l, report, lease, rows, now);
            &&& report2.errors.len() >= report.errors.len()
            &&& forall|k: Seq<char>| #[trigger]
                l.debit_keys.dom().contains(k) ==> l2.debit_keys.dom().contains(k)
                    && l2.debit_keys[k] == l.debit_keys[k]
        }),
    decreases rows.len(),
{
    if rows.len() > 0 {
        reapply_keeps_receipts(l, report, lease, rows.drop_last(), now);
    }
}

/// Every settled row of a charge without errors has its receipt.
proof fn reapply_leaves_receipts(
    l: LedgerView,
    report: ReportView,
    lease: Seq<char>,
    rows: Seq<ExecutionView>,
    now: i64,
)
    requires
        reapply_settled(l, report, lease, rows, now).1.errors.len() == report.errors.len(),
    ensures
        ({
            let l2 = reapply_settled(l, report, lease, rows, now).0;
            forall|i: int|
                #![trigger rows[i]]
                0 <= i < rows.len() && rows[i].state == ExecutionState::Settled
                    ==> l2.debit_keys.dom().contains(boot_key(rows[i].id))
                    && l2.debit_keys[boot_key(rows[i].id)].actual == charged(rows[i])
                    && l2.debit_keys[boot_key(rows[i].id)].reservation_id == lease
        }),
    decreases rows.len(),
{
    if rows.len() > 0 {
        let rest = rows.drop_last();
        reapply_keeps_receipts(l, report, lease, rest, now);
        let (l1, report1) = reapply_settled(l, report, lease, rest, now);
        reapply_leaves_receipts(l, report, lease, rest, now);
        let l2 = reapply_settled(l, report, lease, rows, now).0;
        assert forall|i: int|
            #![trigger rows[i]]
            0 <= i < rows.len() && rows[i].state == ExecutionState::Settled implies l2.debit_keys.dom().contains(
            boot_key(rows[i].id),
        ) && l2.debit_keys[boot_key(rows[i].id)].actual == charged(rows[i])
            && l2.debit_keys[boot_key(rows[i].id)].reservation_id == lease by {
            if i < rest.len() {
                assert(rest[i] == rows[i]);
                assert(l1.debit_keys.dom().contains(boot_key(rest[i].id)));
            }
        }
    }
}

/// Charging the settled rows of a lease again changes nothing: a repeated
/// reconciliation neither resurrects nor double-charges spent budget.
pub proof fn reapply_is_idempotent(
    l: LedgerView,
    report: ReportView,
    report2: ReportView,
    lease: Seq<char>,
    rows: Seq<ExecutionView>,
    now: i64,
    later: i64,
)
    requires
        reapply_settled(l, report, lease, rows, now).1.errors == report.errors,
    ensures
        ({
            let l2 = reapply_settled(l, report, lease, rows, now).0;
            reapply_settled(l2, report2, lease, rows, later) == (l2, report2)
        }),
{
    reapply_leaves_receipts(l, report, lease, rows, now);
    let l2 = reapply_settled(l, report, lease, rows, now).0;
    reapply_known(l2, report2, lease, rows, later);
}

proof fn reapply_known(
    l: LedgerView,
    report: ReportView,
    lease: Seq<char>,
    rows: Seq<ExecutionView>,
    now: i64,
)
    requires
        forall|i: int|
            #![trigger rows[i]]
            0 <= i < rows.len() && rows[i].state == ExecutionState::Settled
                ==> l.debit_keys.dom().contains(boot_key(rows[i].id))
                && l.debit_keys[boot_key(rows[i].id)].actual == charged(rows[i])
                && l.debit_keys[boot_key(rows[i].id)].reservation_id == lease,
    ensures
        reapply_settled(l, report, lease, rows, now) == (l, report),
    decreases rows.len(),
{
    if rows.len() > 0 {
        assert forall|i: int|
            #![trigger rows.drop_last()[i]]
            0 <= i < rows.drop_last().len() && rows.drop_last()[i].state
                == ExecutionState::Settled implies l.debit_keys.dom().contains(
            boot_key(rows.drop_last()[i].id),
        ) && l.debit_keys[boot_key(rows.drop_last()[i].id)].actual == charged(rows.drop_last()[i])
            && l.debit_keys[boot_key(rows.drop_last()[i].id)].reservation_id == lease by {
            assert(rows.drop_last()[i] == rows[i]);
        }
        reapply_known(l, report, lease, rows.drop_last(), now);
        assert(rows[rows.len() - 1] == rows.last());
    }
}

/// An execution that one boot settled is not charged again by the next: the
/// written row finds the receipt of the first charge.
pub proof fn boot_settlement_is_charged_once(
    l: LedgerView,
    report: ReportView,
    lease: Seq<char>,
    e: ExecutionView,
    now: i64,
    later: i64,
)
    requires
        l.charge_lease(lease, e.held, boot_key(e.id), now).1 is Ok,
    ensures
        ({
            let l2 = l.charge_lease(lease, e.held, boot_key(e.id), now).0;
            let row = settled_row(e, e.held, now);
            reapply_settled(l2, report, lease, seq![row], later) == (l2, report)
        }),
{
    let l2 = l.charge_lease(lease, e.held, boot_key(e.id), now).0;
    let rows = seq![settled_row(e, e.held, now)];
    reapply_known(l2, report, lease, rows, later);
}

/// A settle writes its row exactly if the store holds it as held, and then with
/// what was used and the time, and all else as it stood. A release likewise
/// writes it as released. Neither touches the ledger before the store has taken
/// the row.
pub proof fn rows_are_written_before_the_ledger_moves(
    l: LedgerView,
    read: Result<Option<ExecutionView>, Seq<char>>,
    id: Seq<char>,
    actual: Budget,
    key: Seq<char>,
    now: i64,
)
    ensures
        ({
            let (l2, step) = settle_on_read(l, read, id, actual, key, now);
            let (l3, other) = release_on_read(l, read, id, now);
            let held = read is Ok && read->Ok_0 is Some && read->Ok_0->0.state
                == ExecutionState::Held;
            let row = read->Ok_0->0;
            &&& step is Write <==> held
            &&& other is Write <==> held
            &&& held ==> l2 == l && l3 == l
            &&& step matches StoreStepView::Write(w) ==> {
                &&& w.state == ExecutionState::Settled && w.actual == Some(actual)
                &&& w.completed_at_ms == Some(now)
                &&& w.id == row.id && w.lease_id == row.lease_id && w.action_id == row.action_id
                &&& w.held == row.held && w.idempotency_key == row.idempotency_key
                &&& w.created_at_ms == row.created_at_ms
            }
            &&& other matches StoreStepView::Write(w) ==> {
                &&& w.state == ExecutionState::Released && w.actual == row.actual
                &&& w.completed_at_ms == Some(now)
                &&& w.id == row.id && w.lease_id == row.lease_id && w.action_id == row.action_id
                &&& w.held == row.held && w.idempotency_key == row.idempotency_key
                &&& w.created_at_ms == row.created_at_ms
            }
            &&& read is Ok && read->Ok_0 is None ==> step == StoreStepView::<ReceiptView>::Done(
                Err(BudgetErrorView::UnknownReservation(id)),
            ) && other == StoreStepView::<Budget>::Done(
                Err(BudgetErrorView::UnknownReservation(id)),
            )
            &&& read is Ok && read->Ok_0 is Some && row.state == ExecutionState::Settled ==> {
                &&& other == StoreStepView::<Budget>::Done(
                    Err(BudgetErrorView::ExecutionNotHeld(id)),
                )
                &&& row.actual != Some(actual) ==> step == StoreStepView::<ReceiptView>::Done(
                    Err(BudgetErrorView::IdempotencyConflict(key)),
                ) && l2 == l
            }
        }),
{
}

} // verus!
