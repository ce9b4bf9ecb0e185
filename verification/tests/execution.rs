//! The execution budget lifecycle over an in-memory store.

use lumen_core::boot::{group_by_lease, BootEvent, BootRun, BootStep};
use lumen_core::budget::{
    Budget, BudgetDimension, BudgetError, BudgetLedger, DebitReceipt, ExecutionReservation,
    ExecutionState, Reservation,
};
use lumen_core::execution::{BootReconciliation, ExecutionDriver, StoreStep};

fn caps() -> Budget {
    Budget::new().set(BudgetDimension::Executions, 2)
}

fn one_exec() -> Budget {
    Budget::new().set(BudgetDimension::Executions, 1)
}

fn two_execs() -> Budget {
    Budget::new().set(BudgetDimension::Executions, 2)
}

fn micros(n: u64) -> Budget {
    Budget::new().set(BudgetDimension::SpendMicros, n)
}

/// Rows that may only leave the held state once. Where `winner` is set, the
/// first update loses against a settle with that consumption.
#[derive(Default)]
struct Store {
    executions: Vec<ExecutionReservation>,
    reservations: Vec<Reservation>,
    caps: Vec<(String, Budget)>,
    winner: Option<Budget>,
}

impl Store {
    fn get(&self, id: &str) -> Option<ExecutionReservation> {
        self.executions.iter().find(|e| e.id == id).cloned()
    }

    fn lease_caps(&self, id: &str) -> Option<Budget> {
        self.caps.iter().find(|(k, _)| k == id).map(|(_, c)| *c)
    }

    fn persist(&mut self, r: &ExecutionReservation) {
        let existing = self.get(&r.id);
        if ExecutionDriver::persist_reservation(&existing) {
            self.executions.push(r.clone());
        }
    }

    fn update(&mut self, row: &ExecutionReservation) -> Result<(), String> {
        let stored = self
            .executions
            .iter_mut()
            .find(|e| e.id == row.id)
            .ok_or("not found".to_string())?;
        if let Some(actual) = self.winner.take() {
            stored.state = ExecutionState::Settled;
            stored.actual = Some(actual);
            stored.completed_at_ms = Some(99);
        }
        if stored.state != ExecutionState::Held {
            return Err("illegal execution reservation mutation".to_string());
        }
        *stored = row.clone();
        Ok(())
    }
}

fn settle(
    driver: &mut ExecutionDriver,
    store: &mut Store,
    id: &str,
    actual: &Budget,
    key: &str,
    now: i64,
) -> Result<DebitReceipt, BudgetError> {
    let mut step = driver.settle(Ok(store.get(id)), id, actual, key, now);
    loop {
        step = match step {
            StoreStep::Write(row) => {
                let wrote = store.update(&row);
                driver.settle_written(&row, wrote, id, actual, key, now)
            }
            StoreStep::Reread(e) => {
                driver.settle_reread(e, Ok(store.get(id)), id, actual, key, now)
            }
            StoreStep::Done(r) => return r,
        };
    }
}

fn release(
    driver: &mut ExecutionDriver,
    store: &mut Store,
    id: &str,
    now: i64,
) -> Result<Budget, BudgetError> {
    match driver.release(Ok(store.get(id)), id, now) {
        StoreStep::Write(row) => {
            let wrote = store.update(&row);
            match driver.release_written(&row, wrote, id, now) {
                StoreStep::Done(r) => r,
                _ => unreachable!(),
            }
        }
        StoreStep::Done(r) => r,
        StoreStep::Reread(_) => unreachable!(),
    }
}

fn reconcile_at_boot(
    driver: &mut ExecutionDriver,
    store: &mut Store,
    is_completed: &dyn Fn(&str) -> bool,
    now: i64,
) -> BootReconciliation {
    let mut run = BootRun::new(store.reservations.clone());
    loop {
        let event = match run.step(now) {
            BootStep::ReadCaps(lease) => BootEvent::Caps(store.lease_caps(&lease)),
            BootStep::ReadExecutions => BootEvent::Executions(store.executions.clone()),
            BootStep::AskCompleted(action) => BootEvent::Completed(is_completed(&action)),
            BootStep::Write(row) => BootEvent::Wrote(store.update(&row)),
            BootStep::Done => return run.into_report(),
        };
        driver.boot(&mut run, event, now);
    }
}

fn executions_left(driver: &ExecutionDriver, lease: &str) -> u64 {
    driver
        .ledger
        .remaining(lease)
        .unwrap()
        .get(BudgetDimension::Executions)
}

fn micros_left(driver: &ExecutionDriver, lease: &str) -> u64 {
    driver
        .ledger
        .remaining(lease)
        .unwrap()
        .get(BudgetDimension::SpendMicros)
}

fn held(store: &mut Store) -> (ExecutionDriver, ExecutionReservation) {
    let mut ledger = BudgetLedger::new();
    ledger.register_lease("lease", &caps()).unwrap();
    store.caps.push(("lease".to_string(), caps()));
    let r = ledger
        .reserve_execution("lease", "action-1", &one_exec(), "nonce-1", 1)
        .unwrap();
    store.persist(&r);
    (ExecutionDriver::new(ledger), r)
}

#[test]
fn driver_settle_full_lifecycle() {
    let mut store = Store::default();
    let (mut driver, r) = held(&mut store);
    // Persisting twice is a no-op, not a conflict.
    store.persist(&r);
    assert_eq!(store.executions.len(), 1);

    let receipt = settle(&mut driver, &mut store, &r.id, &one_exec(), "settle-1", 2).unwrap();
    assert_eq!(receipt.actual, one_exec());
    let stored = store.get(&r.id).unwrap();
    assert_eq!(stored.state, ExecutionState::Settled);
    assert_eq!(stored.actual, Some(one_exec()));
    // Budget is spent: one execution remains of two.
    assert_eq!(executions_left(&driver, "lease"), 1);

    // Idempotent retry: same key and actuals, same receipt.
    let again = settle(&mut driver, &mut store, &r.id, &one_exec(), "settle-1", 3).unwrap();
    assert_eq!(receipt, again);
    // Same key, different actuals: conflict, fail closed.
    assert!(matches!(
        settle(&mut driver, &mut store, &r.id, &two_execs(), "settle-1", 4),
        Err(BudgetError::IdempotencyConflict(_))
    ));
    driver.ledger.check_invariants().unwrap();
}

#[test]
fn driver_release_returns_hold() {
    let mut store = Store::default();
    let (mut driver, r) = held(&mut store);
    let returned = release(&mut driver, &mut store, &r.id, 2).unwrap();
    assert_eq!(returned, one_exec());
    assert_eq!(executions_left(&driver, "lease"), 2);
    // Releasing twice is a no-op success; settling after release fails.
    assert_eq!(
        release(&mut driver, &mut store, &r.id, 3).unwrap(),
        one_exec()
    );
    assert!(matches!(
        settle(&mut driver, &mut store, &r.id, &one_exec(), "settle-1", 4),
        Err(BudgetError::ExecutionNotHeld(_))
    ));
    driver.ledger.check_invariants().unwrap();
}

#[test]
fn driver_settle_unknown_reservation_fails_closed() {
    let mut store = Store::default();
    let mut driver = ExecutionDriver::new(BudgetLedger::new());
    assert!(matches!(
        settle(&mut driver, &mut store, "exec_nope", &one_exec(), "k", 1),
        Err(BudgetError::UnknownReservation(_))
    ));
    assert!(matches!(
        release(&mut driver, &mut store, "exec_nope", 1),
        Err(BudgetError::UnknownReservation(_))
    ));
}

#[test]
fn boot_reconcile_releases_incomplete_and_settles_completed() {
    let mut store = Store::default();
    let (mut driver, r1) = held(&mut store);
    // Crash between persist and settle: two held reservations survive.
    let r2 = driver
        .ledger
        .reserve_execution("lease", "action-2", &one_exec(), "nonce-2", 1)
        .unwrap();
    store.persist(&r2);

    // The crash: a fresh ledger, empty of everything. The action log says
    // action-1 dispatched, action-2 never did.
    let mut driver = ExecutionDriver::new(BudgetLedger::new());
    let done = |action_id: &str| action_id == "action-1";
    let report = reconcile_at_boot(&mut driver, &mut store, &done, 10);
    assert!(report.errors.is_empty(), "errors: {:?}", report.errors);
    assert_eq!(report.rehydrated_leases, 1);
    assert_eq!(report.settled, vec![r1.id.clone()]);
    assert_eq!(report.released, vec![r2.id.clone()]);

    // action-1 was charged its held estimate; action-2's hold returned.
    assert_eq!(executions_left(&driver, "lease"), 1);
    let (_, _, exec_held, consumed) = driver.ledger.account_summary("lease").unwrap();
    assert_eq!(exec_held.get(BudgetDimension::Executions), 0);
    assert_eq!(consumed.get(BudgetDimension::Executions), 1);
    driver.ledger.check_invariants().unwrap();

    // Running it again, and again, changes nothing.
    for now in [11, 12] {
        let report = reconcile_at_boot(&mut driver, &mut store, &done, now);
        assert!(report.settled.is_empty());
        assert!(report.released.is_empty());
        assert!(report.errors.is_empty());
        assert_eq!(executions_left(&driver, "lease"), 1);
        let (_, _, exec_held, consumed) = driver.ledger.account_summary("lease").unwrap();
        assert_eq!(exec_held.get(BudgetDimension::Executions), 0);
        assert_eq!(consumed.get(BudgetDimension::Executions), 1);
        driver.ledger.check_invariants().unwrap();
    }
}

#[test]
fn boot_reconcile_reapplies_settled_consumption() {
    let mut store = Store::default();
    let (mut driver, r) = held(&mut store);
    // Settle fully, then crash before any further work.
    settle(&mut driver, &mut store, &r.id, &one_exec(), "settle-1", 2).unwrap();

    let mut driver = ExecutionDriver::new(BudgetLedger::new());
    let report = reconcile_at_boot(&mut driver, &mut store, &|_| false, 10);
    assert!(report.errors.is_empty());
    assert!(
        report.settled.is_empty(),
        "already settled: no double charge"
    );
    // The spent execution is still spent after the crash.
    assert_eq!(executions_left(&driver, "lease"), 1);
    driver.ledger.check_invariants().unwrap();
}

#[test]
fn boot_reconcile_missing_caps_reports_error() {
    let mut store = Store::default();
    let (_, _) = held(&mut store);
    // Without recorded caps the ledger cannot be rebuilt.
    store.caps.clear();
    let mut driver = ExecutionDriver::new(BudgetLedger::new());
    let report = reconcile_at_boot(&mut driver, &mut store, &|_| false, 10);
    assert_eq!(report.errors.len(), 1);
    assert!(report.errors[0].1.contains("no recorded caps"));
}

#[test]
fn boot_reconcile_restores_child_reservation_holds() {
    // A parent whose budget is held for active children, but which has no
    // executions of its own, must still be restored.
    let mut ledger = BudgetLedger::new();
    let mut store = Store::default();
    ledger.register_lease("parent", &micros(100)).unwrap();
    let res = ledger.reserve("parent", "child", &micros(60), 1).unwrap();
    ledger.register_lease("child", &micros(60)).unwrap();
    ledger.debit(&res.id, &micros(25), "key-1", 2).unwrap();
    store.caps.push(("parent".to_string(), micros(100)));
    store.caps.push(("child".to_string(), micros(60)));
    let live: Vec<Reservation> = ledger.active_reservations();
    assert_eq!(live.len(), 1);
    store.reservations = live;

    // Crash: a fresh ledger, empty of everything.
    let mut driver = ExecutionDriver::new(BudgetLedger::new());
    let report = reconcile_at_boot(&mut driver, &mut store, &|_| false, 10);
    assert!(report.errors.is_empty(), "errors: {:?}", report.errors);

    // 40 remains, and the reservation is back with its consumption of 25.
    assert_eq!(micros_left(&driver, "parent"), 40);
    let rehydrated = driver.ledger.active_reservations();
    assert_eq!(rehydrated.len(), 1);
    assert_eq!(rehydrated[0].child_lease_id, "child");
    assert_eq!(rehydrated[0].consumed.get(BudgetDimension::SpendMicros), 25);
    // The child account is back too, with its held maximum as caps.
    assert!(driver.ledger.is_lease_registered("child"));

    // A second run does not double-count the hold.
    let report2 = reconcile_at_boot(&mut driver, &mut store, &|_| false, 11);
    assert!(report2.errors.is_empty());
    assert_eq!(micros_left(&driver, "parent"), 40);
    assert_eq!(driver.ledger.active_reservations().len(), 1);

    // Releasing now charges the recorded consumption to the parent.
    let returned = driver.ledger.release(&rehydrated[0].id, 12).unwrap();
    assert_eq!(returned.get(BudgetDimension::SpendMicros), 35);
    assert_eq!(micros_left(&driver, "parent"), 75);
    driver.ledger.check_invariants().unwrap();
}

#[test]
fn driver_settle_losing_race_replays_receipt() {
    // The loser's update is rejected, but the idempotent settle still returns
    // the existing actuals.
    let mut store = Store::default();
    let (mut driver, r) = held(&mut store);
    store.winner = Some(one_exec());
    let receipt = settle(&mut driver, &mut store, &r.id, &one_exec(), "settle-1", 2).unwrap();
    assert_eq!(receipt.reservation_id, r.id);
    assert_eq!(receipt.actual, one_exec());
    let stored = store.get(&r.id).unwrap();
    assert_eq!(stored.state, ExecutionState::Settled);
    assert_eq!(stored.actual, Some(one_exec()));
    // The ledger charged exactly once: one execution remains of two.
    assert_eq!(executions_left(&driver, "lease"), 1);
    driver.ledger.check_invariants().unwrap();
}

#[test]
fn driver_settle_losing_race_with_conflict_fails_closed() {
    // The winner settled different actuals: a conflict, never silently
    // accepted.
    let mut store = Store::default();
    let (mut driver, r) = held(&mut store);
    store.winner = Some(two_execs());
    assert!(matches!(
        settle(&mut driver, &mut store, &r.id, &one_exec(), "settle-1", 2),
        Err(BudgetError::IdempotencyConflict(_))
    ));
    // The durable row keeps the winner's receipt and the ledger still holds
    // the reservation.
    assert_eq!(store.get(&r.id).unwrap().actual, Some(two_execs()));
    assert_eq!(
        driver.ledger.get_execution(&r.id).unwrap().state,
        ExecutionState::Held
    );
}

#[test]
fn store_faults_are_reported() {
    let mut store = Store::default();
    let (mut driver, r) = held(&mut store);
    assert!(matches!(
        driver.settle(Err("down".to_string()), &r.id, &one_exec(), "k", 2),
        StoreStep::Done(Err(BudgetError::Store(_)))
    ));
    let row = store.get(&r.id).unwrap();
    // Still held after a failed write: the first fault comes back.
    assert!(matches!(
        driver.settle_reread("disk full".to_string(), Ok(Some(row)), &r.id, &one_exec(), "k", 2),
        StoreStep::Done(Err(BudgetError::Store(e))) if e == "disk full"
    ));
}

#[test]
fn executions_are_sorted_by_lease() {
    let mut ledger = BudgetLedger::new();
    ledger.register_lease("a", &two_execs()).unwrap();
    ledger.register_lease("b", &two_execs()).unwrap();
    let rows = vec![
        ledger.reserve_execution("b", "1", &one_exec(), "n1", 1).unwrap(),
        ledger.reserve_execution("a", "2", &one_exec(), "n2", 1).unwrap(),
        ledger.reserve_execution("b", "3", &one_exec(), "n3", 1).unwrap(),
    ];
    let groups = group_by_lease(&rows);
    assert_eq!(groups.len(), 2);
    assert_eq!(groups[0].0, "b");
    assert_eq!(groups[0].1.len(), 2);
    assert_eq!(groups[0].1[1].id, rows[2].id);
    assert_eq!(groups[1].0, "a");
}

#[test]
fn answers_that_were_not_asked_for_change_nothing() {
    let mut driver = ExecutionDriver::new(BudgetLedger::new());
    let mut run = BootRun::new(vec![]);
    driver.boot(&mut run, BootEvent::Completed(true), 1);
    assert!(matches!(run.step(1), BootStep::ReadExecutions));
    driver.boot(&mut run, BootEvent::Executions(vec![]), 1);
    assert!(matches!(run.step(1), BootStep::Done));
    assert!(run.into_report().errors.is_empty());
}

#[test]
fn reconciling_twice_changes_nothing_more() {
    let mut store = Store::default();
    let (driver, r) = held(&mut store);
    drop(driver);
    let mut driver = ExecutionDriver::new(BudgetLedger::new());
    let first = reconcile_at_boot(&mut driver, &mut store, &|id| id == r.action_id, 50);
    assert_eq!(first.settled, vec![r.id.clone()]);
    let left = executions_left(&driver, "lease");
    let second = reconcile_at_boot(&mut driver, &mut store, &|_| true, 60);
    assert_eq!(second.rehydrated_leases, 0);
    assert!(second.settled.is_empty() && second.released.is_empty() && second.errors.is_empty());
    assert_eq!(executions_left(&driver, "lease"), left);
}

#[test]
fn boot_records_spend_beyond_the_caps() {
    // The caps are exhausted by more than what was held: the spend is a fact
    // and must not be lost with the process.
    let mut store = Store::default();
    let (_, r) = held(&mut store);
    store.caps = vec![("lease".to_string(), one_exec())];
    store.executions = vec![ExecutionReservation {
        state: ExecutionState::Settled,
        actual: Some(two_execs()),
        completed_at_ms: Some(2),
        ..r
    }];
    let mut driver = ExecutionDriver::new(BudgetLedger::new());
    let report = reconcile_at_boot(&mut driver, &mut store, &|_| false, 10);
    assert!(report.errors.is_empty());
    let (_, _, exec_held, consumed) = driver.ledger.account_summary("lease").unwrap();
    assert_eq!(consumed, two_execs());
    assert!(exec_held.is_zero());
    assert_eq!(executions_left(&driver, "lease"), 0);
}

#[test]
fn a_boot_counts_the_leases_it_rebuilds() {
    let mut store = Store::default();
    let (_, _) = held(&mut store);
    let mut driver = ExecutionDriver::new(BudgetLedger::new());
    let run = BootRun::new(vec![]);
    assert_eq!(run.rehydrated_leases(), 0);
    let report = reconcile_at_boot(&mut driver, &mut store, &|_| false, 10);
    assert_eq!(report.rehydrated_leases, 1);
}
