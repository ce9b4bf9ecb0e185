//! Budget accounting.

use lumen_core::budget::{
    Budget, BudgetDimension, BudgetError, BudgetLedger, ExecutionState, ReservationState,
};

fn micros(n: u64) -> Budget {
    Budget::new().set(BudgetDimension::SpendMicros, n)
}

#[test]
fn reserve_and_debit_flow() {
    let mut ledger = BudgetLedger::new();
    ledger.register_lease("parent", &micros(100)).unwrap();
    let res = ledger.reserve("parent", "child", &micros(60), 1).unwrap();
    assert_eq!(
        ledger
            .remaining("parent")
            .unwrap()
            .get(BudgetDimension::SpendMicros),
        40
    );
    // Second child cannot exceed the remainder.
    assert!(ledger.reserve("parent", "child2", &micros(50), 1).is_err());
    let res2 = ledger.reserve("parent", "child2", &micros(40), 1).unwrap();
    assert_eq!(
        ledger
            .remaining("parent")
            .unwrap()
            .get(BudgetDimension::SpendMicros),
        0
    );
    // Debit within held.
    let r1 = ledger.debit(&res.id, &micros(25), "key-1", 2).unwrap();
    assert_eq!(r1.actual.get(BudgetDimension::SpendMicros), 25);
    // Idempotent retry: same key, same debit → same receipt, no double charge.
    let r1b = ledger.debit(&res.id, &micros(25), "key-1", 3).unwrap();
    assert_eq!(r1, r1b);
    // Same key, different debit → conflict.
    assert!(matches!(
        ledger.debit(&res.id, &micros(26), "key-1", 4),
        Err(BudgetError::IdempotencyConflict(_))
    ));
    // Debit beyond held fails.
    assert!(ledger.debit(&res.id, &micros(40), "key-2", 5).is_err());
    // Release returns the unspent remainder.
    let returned = ledger.release(&res2.id, 6).unwrap();
    assert_eq!(returned.get(BudgetDimension::SpendMicros), 40);
    assert_eq!(
        ledger
            .remaining("parent")
            .unwrap()
            .get(BudgetDimension::SpendMicros),
        40
    );
    ledger.check_invariants().unwrap();
}

#[test]
fn rollback_lease_registration_undoes_a_fresh_mint() {
    let mut ledger = BudgetLedger::new();
    ledger.register_lease("parent", &micros(100)).unwrap();
    // Standing-mint ledger effects: reservation + child account.
    ledger.reserve("parent", "child", &micros(60), 1).unwrap();
    ledger.register_lease("child", &micros(60)).unwrap();

    ledger.rollback_lease_registration("child").unwrap();

    // The issuance reservation is removed entirely (no Released
    // phantom), the parent's held balance is restored, and the child
    // account is gone.
    assert!(ledger.active_reservations().is_empty());
    assert!(ledger.account_summary("child").is_none());
    assert_eq!(
        ledger
            .remaining("parent")
            .unwrap()
            .get(BudgetDimension::SpendMicros),
        100
    );
    ledger.check_invariants().unwrap();
    // One-shot mints (no reservation) roll back to just the account
    // removal.
    ledger.register_lease("oneshot", &micros(1)).unwrap();
    ledger.rollback_lease_registration("oneshot").unwrap();
    assert!(ledger.account_summary("oneshot").is_none());
    ledger.check_invariants().unwrap();
}

#[test]
fn rollback_lease_registration_fails_closed_on_used_state() {
    // Consumption against the child account blocks rollback.
    let mut ledger = BudgetLedger::new();
    ledger.register_lease("parent", &micros(100)).unwrap();
    ledger.reserve("parent", "child", &micros(60), 1).unwrap();
    ledger.register_lease("child", &micros(60)).unwrap();
    ledger
        .debit_lease("child", &micros(10), "spend-1", 2)
        .unwrap();
    let before = ledger.account_summary("parent").unwrap();
    assert!(matches!(
        ledger.rollback_lease_registration("child"),
        Err(BudgetError::RollbackFailed(_, _))
    ));
    // Fail-closed: the ledger is untouched.
    assert_eq!(ledger.account_summary("parent").unwrap(), before);
    assert!(ledger.account_summary("child").is_some());
    assert_eq!(ledger.active_reservations().len(), 1);

    // Reserved descendants block rollback too.
    let mut ledger = BudgetLedger::new();
    ledger.register_lease("parent", &micros(100)).unwrap();
    ledger.reserve("parent", "child", &micros(60), 1).unwrap();
    ledger.register_lease("child", &micros(60)).unwrap();
    ledger
        .reserve("child", "grandchild", &micros(10), 2)
        .unwrap();
    assert!(matches!(
        ledger.rollback_lease_registration("child"),
        Err(BudgetError::RollbackFailed(_, _))
    ));
    assert_eq!(ledger.active_reservations().len(), 2);

    // A consumed issuance reservation blocks rollback.
    let mut ledger = BudgetLedger::new();
    ledger.register_lease("parent", &micros(100)).unwrap();
    let res = ledger.reserve("parent", "child", &micros(60), 1).unwrap();
    ledger.register_lease("child", &micros(60)).unwrap();
    ledger.debit(&res.id, &micros(5), "debit-1", 2).unwrap();
    assert!(matches!(
        ledger.rollback_lease_registration("child"),
        Err(BudgetError::RollbackFailed(_, _))
    ));

    // A missing child account is inconsistent, not "already done".
    let mut ledger = BudgetLedger::new();
    assert!(matches!(
        ledger.rollback_lease_registration("ghost"),
        Err(BudgetError::RollbackFailed(_, _))
    ));
}

#[test]
fn register_lease_rejects_duplicate_ids() {
    let mut ledger = BudgetLedger::new();
    ledger.register_lease("parent", &micros(100)).unwrap();
    assert!(ledger.is_lease_registered("parent"));
    assert!(!ledger.is_lease_registered("ghost"));

    // A duplicate mint (child id collides with an existing account)
    // fails at reserve time, before any hold is taken: nothing leaks.
    assert!(matches!(
        ledger.reserve("parent", "parent", &micros(60), 1),
        Err(BudgetError::DuplicateLease(_))
    ));
    // The parent's books are untouched and no reservation was recorded.
    assert_eq!(
        ledger
            .remaining("parent")
            .unwrap()
            .get(BudgetDimension::SpendMicros),
        100
    );
    assert!(ledger.active_reservations().is_empty());

    // register_lease is the second layer: re-registering an id whose
    // spend is already recorded must fail instead of resetting its
    // books to zero (which would resurrect spent budget).
    ledger.register_lease("sibling", &micros(10)).unwrap();
    ledger
        .debit_lease("sibling", &micros(4), "sib-key", 1)
        .unwrap();
    assert!(matches!(
        ledger.register_lease("sibling", &micros(10)),
        Err(BudgetError::DuplicateLease(_))
    ));
    assert_eq!(
        ledger
            .remaining("sibling")
            .unwrap()
            .get(BudgetDimension::SpendMicros),
        6
    );
    ledger.check_invariants().unwrap();
}

#[test]
fn release_debit_then_release_conserves_budget() {
    // Cap 100, child reserves 60, debit
    // records 25. After release the parent must hold 75 remaining — the
    // spent 25 moves into parent.consumed instead of becoming spendable
    // again.
    let mut ledger = BudgetLedger::new();
    ledger.register_lease("parent", &micros(100)).unwrap();
    let res = ledger.reserve("parent", "child", &micros(60), 1).unwrap();
    ledger.debit(&res.id, &micros(25), "key-1", 2).unwrap();

    let returned = ledger.release(&res.id, 3).unwrap();
    assert_eq!(returned.get(BudgetDimension::SpendMicros), 35);
    let (caps, reserved_out, exec_held, consumed) = ledger.account_summary("parent").unwrap();
    assert_eq!(consumed.get(BudgetDimension::SpendMicros), 25);
    assert_eq!(reserved_out.get(BudgetDimension::SpendMicros), 0);
    let remaining = ledger.remaining("parent").unwrap();
    assert_eq!(remaining.get(BudgetDimension::SpendMicros), 75);
    // Conservation: remaining + reserved_out + exec_held + consumed == cap.
    let total = remaining.get(BudgetDimension::SpendMicros)
        + reserved_out.get(BudgetDimension::SpendMicros)
        + exec_held.get(BudgetDimension::SpendMicros)
        + consumed.get(BudgetDimension::SpendMicros);
    assert_eq!(total, caps.get(BudgetDimension::SpendMicros));
    ledger.check_invariants().unwrap();

    // Releasing twice fails closed.
    assert!(matches!(
        ledger.release(&res.id, 4),
        Err(BudgetError::ReservationNotActive(_))
    ));
}

#[test]
fn release_moves_child_account_spend_to_parent() {
    // The larger leak: child spend via settle_execution / debit_lease
    // lands on the child account, never on Reservation.consumed.
    // Release must move all of it — settled consumption and outstanding
    // execution holds — into the parent, or mint → spend → expire →
    // mint again would exceed the parent cap every cycle.
    let mut ledger = BudgetLedger::new();
    ledger.register_lease("parent", &micros(100)).unwrap();
    let res = ledger.reserve("parent", "child", &micros(60), 1).unwrap();
    ledger.register_lease("child", &micros(60)).unwrap();

    // Spend through every path: reservation-level debit, the child
    // account's own settle, and an outstanding execution hold.
    ledger.debit(&res.id, &micros(25), "key-1", 2).unwrap();
    let exec = ledger
        .reserve_execution("child", "a1", &micros(10), "n1", 3)
        .unwrap();
    ledger
        .settle_execution(&exec.id, &micros(10), "s1", 4)
        .unwrap();
    ledger
        .reserve_execution("child", "a2", &micros(5), "n2", 5)
        .unwrap();

    // Child spend = 25 (reservation) + 10 (settled) + 5 (held) = 40.
    let returned = ledger.release(&res.id, 6).unwrap();
    assert_eq!(returned.get(BudgetDimension::SpendMicros), 20);
    let (caps, reserved_out, exec_held, consumed) = ledger.account_summary("parent").unwrap();
    assert_eq!(consumed.get(BudgetDimension::SpendMicros), 40);
    assert_eq!(reserved_out.get(BudgetDimension::SpendMicros), 0);
    let remaining = ledger.remaining("parent").unwrap();
    assert_eq!(remaining.get(BudgetDimension::SpendMicros), 60);
    let total = remaining.get(BudgetDimension::SpendMicros)
        + reserved_out.get(BudgetDimension::SpendMicros)
        + exec_held.get(BudgetDimension::SpendMicros)
        + consumed.get(BudgetDimension::SpendMicros);
    assert_eq!(total, caps.get(BudgetDimension::SpendMicros));
    ledger.check_invariants().unwrap();
}

#[test]
fn rehydrate_reservation_restores_hold_idempotently() {
    let mut ledger = BudgetLedger::new();
    ledger.register_lease("parent", &micros(100)).unwrap();
    let mut res = ledger.reserve("parent", "child", &micros(60), 1).unwrap();
    ledger.debit(&res.id, &micros(25), "key-1", 2).unwrap();
    res = ledger
        .active_reservations()
        .into_iter()
        .find(|r| r.id == res.id)
        .unwrap();

    // Simulate the crash: a fresh ledger with only the parent's caps.
    let mut fresh = BudgetLedger::new();
    fresh.register_lease("parent", &micros(100)).unwrap();
    fresh.rehydrate_reservation(&res).unwrap();
    assert_eq!(
        fresh
            .remaining("parent")
            .unwrap()
            .get(BudgetDimension::SpendMicros),
        40
    );
    // Re-running is a no-op: the hold is never double-counted.
    fresh.rehydrate_reservation(&res).unwrap();
    assert_eq!(
        fresh
            .remaining("parent")
            .unwrap()
            .get(BudgetDimension::SpendMicros),
        40
    );
    // The recorded consumption survived and is charged at release.
    let rehydrated = fresh.active_reservations();
    assert_eq!(rehydrated.len(), 1);
    assert_eq!(rehydrated[0].consumed.get(BudgetDimension::SpendMicros), 25);
    fresh.release(&rehydrated[0].id, 3).unwrap();
    assert_eq!(
        fresh
            .remaining("parent")
            .unwrap()
            .get(BudgetDimension::SpendMicros),
        75
    );
    fresh.check_invariants().unwrap();

    // Non-active reservations and unknown parents fail closed. (Note: the
    // idempotency check runs first, so a re-submitted id is Ok even if
    // the caller mutated its state copy — use fresh ids here.)
    let mut released = res.clone();
    released.id = "res_released".to_string();
    released.state = ReservationState::Released;
    assert!(matches!(
        fresh.rehydrate_reservation(&released),
        Err(BudgetError::ReservationNotActive(_))
    ));
    let mut orphan = res.clone();
    orphan.id = "res_orphan".to_string();
    orphan.parent_lease_id = "ghost".to_string();
    assert!(matches!(
        fresh.rehydrate_reservation(&orphan),
        Err(BudgetError::UnknownLease(_))
    ));
}

#[test]
fn reconcile_releases_dead_children() {
    let mut ledger = BudgetLedger::new();
    ledger.register_lease("parent", &micros(100)).unwrap();
    let res = ledger.reserve("parent", "child", &micros(60), 1).unwrap();
    assert_eq!(
        ledger
            .remaining("parent")
            .unwrap()
            .get(BudgetDimension::SpendMicros),
        40
    );
    let released = ledger.reconcile(&|id: &str| id != "child", 2);
    assert_eq!(released, vec![res.id]);
    assert_eq!(
        ledger
            .remaining("parent")
            .unwrap()
            .get(BudgetDimension::SpendMicros),
        100
    );
}

#[test]
fn multi_dimension_atomicity() {
    let mut ledger = BudgetLedger::new();
    let caps = Budget::new()
        .set(BudgetDimension::SpendMicros, 100)
        .set(BudgetDimension::Tokens, 10);
    ledger.register_lease("parent", &caps).unwrap();
    // Tokens short → the whole reservation fails, spend untouched.
    let want = Budget::new()
        .set(BudgetDimension::SpendMicros, 50)
        .set(BudgetDimension::Tokens, 11);
    assert!(ledger.reserve("parent", "child", &want, 1).is_err());
    assert_eq!(ledger.remaining("parent").unwrap(), caps);
}

fn one_exec() -> Budget {
    Budget::new().set(BudgetDimension::Executions, 1)
}

#[test]
fn execution_reserve_is_atomic_with_admission() {
    let mut ledger = BudgetLedger::new();
    ledger
        .register_lease("lease", &Budget::new().set(BudgetDimension::Executions, 1))
        .unwrap();
    // First reserve takes the last execution; the hold is visible immediately.
    let r = ledger
        .reserve_execution("lease", "action-1", &one_exec(), "nonce-1", 1)
        .unwrap();
    assert_eq!(r.state, ExecutionState::Held);
    assert!(
        ledger
            .remaining("lease")
            .unwrap()
            .get(BudgetDimension::Executions)
            == 0
    );
    // A second authorization on the same finite budget is refused.
    assert!(matches!(
        ledger.reserve_execution("lease", "action-2", &one_exec(), "nonce-2", 2),
        Err(BudgetError::Insufficient { .. })
    ));
    // Conservation still holds with the execution hold counted.
    let (caps, reserved_out, exec_held, consumed) = ledger.account_summary("lease").unwrap();
    assert_eq!(exec_held.get(BudgetDimension::Executions), 1);
    let total = ledger
        .remaining("lease")
        .unwrap()
        .get(BudgetDimension::Executions)
        + reserved_out.get(BudgetDimension::Executions)
        + exec_held.get(BudgetDimension::Executions)
        + consumed.get(BudgetDimension::Executions);
    assert_eq!(total, caps.get(BudgetDimension::Executions));
    ledger.check_invariants().unwrap();
}

#[test]
fn execution_reserve_idempotent_on_envelope_nonce() {
    let mut ledger = BudgetLedger::new();
    ledger
        .register_lease("lease", &Budget::new().set(BudgetDimension::Executions, 2))
        .unwrap();
    let r1 = ledger
        .reserve_execution("lease", "action-1", &one_exec(), "nonce-1", 1)
        .unwrap();
    // Authorizing the same envelope twice returns the same reservation:
    // no double hold.
    let r2 = ledger
        .reserve_execution("lease", "action-1", &one_exec(), "nonce-1", 2)
        .unwrap();
    assert_eq!(r1.id, r2.id);
    assert_eq!(
        ledger
            .remaining("lease")
            .unwrap()
            .get(BudgetDimension::Executions),
        1
    );
}

#[test]
fn execution_settle_converts_hold_to_consumption() {
    let mut ledger = BudgetLedger::new();
    ledger
        .register_lease("lease", &Budget::new().set(BudgetDimension::Executions, 1))
        .unwrap();
    let r = ledger
        .reserve_execution("lease", "action-1", &one_exec(), "nonce-1", 1)
        .unwrap();
    let receipt = ledger
        .settle_execution(&r.id, &one_exec(), "settle-1", 2)
        .unwrap();
    assert_eq!(receipt.actual, one_exec());
    assert_eq!(
        ledger.get_execution(&r.id).unwrap().state,
        ExecutionState::Settled
    );
    // The execution is consumed: remaining stays zero, no double spend.
    assert_eq!(
        ledger
            .remaining("lease")
            .unwrap()
            .get(BudgetDimension::Executions),
        0
    );
    let (_, _, exec_held, consumed) = ledger.account_summary("lease").unwrap();
    assert_eq!(exec_held.get(BudgetDimension::Executions), 0);
    assert_eq!(consumed.get(BudgetDimension::Executions), 1);
    // Idempotent retry: same key and actuals → same receipt.
    let receipt2 = ledger
        .settle_execution(&r.id, &one_exec(), "settle-1", 3)
        .unwrap();
    assert_eq!(receipt, receipt2);
    // Same key, different actuals → conflict, fail closed.
    assert!(matches!(
        ledger.settle_execution(
            &r.id,
            &Budget::new().set(BudgetDimension::Executions, 2),
            "settle-1",
            4
        ),
        Err(BudgetError::IdempotencyConflict(_))
    ));
    // Settling twice is rejected even with a fresh key.
    assert!(matches!(
        ledger.settle_execution(&r.id, &one_exec(), "settle-2", 5),
        Err(BudgetError::ExecutionNotHeld(_))
    ));
    ledger.check_invariants().unwrap();
}

#[test]
fn execution_release_returns_the_hold() {
    let mut ledger = BudgetLedger::new();
    ledger
        .register_lease("lease", &Budget::new().set(BudgetDimension::Executions, 1))
        .unwrap();
    let r = ledger
        .reserve_execution("lease", "action-1", &one_exec(), "nonce-1", 1)
        .unwrap();
    // Dispatch never happened: the hold returns to the balance.
    let returned = ledger.release_execution(&r.id, 2).unwrap();
    assert_eq!(returned, one_exec());
    assert_eq!(
        ledger
            .remaining("lease")
            .unwrap()
            .get(BudgetDimension::Executions),
        1
    );
    assert_eq!(
        ledger.get_execution(&r.id).unwrap().state,
        ExecutionState::Released
    );
    // Double release fails closed; release-then-settle fails closed.
    assert!(matches!(
        ledger.release_execution(&r.id, 3),
        Err(BudgetError::ExecutionNotHeld(_))
    ));
    assert!(matches!(
        ledger.settle_execution(&r.id, &one_exec(), "settle-1", 4),
        Err(BudgetError::ExecutionNotHeld(_))
    ));
    ledger.check_invariants().unwrap();
}

#[test]
fn execution_reserve_on_unknown_lease_fails_closed() {
    let mut ledger = BudgetLedger::new();
    assert!(matches!(
        ledger.reserve_execution("nope", "a", &one_exec(), "n", 1),
        Err(BudgetError::UnknownLease(_))
    ));
}

#[test]
fn charges_land_whatever_is_left() {
    let e = |n: u64| Budget::new().set(BudgetDimension::Executions, n);
    let mut ledger = BudgetLedger::new();
    ledger.register_lease("lease", &e(1)).unwrap();
    assert!(matches!(
        ledger.charge_lease("other", &e(1), "k", 1),
        Err(BudgetError::UnknownLease(_))
    ));
    let first = ledger.charge_lease("lease", &e(3), "k", 1).unwrap();
    assert_eq!(first.actual, e(3));
    // The key decides: the same charge again, or another under its key.
    assert_eq!(ledger.charge_lease("lease", &e(3), "k", 2).unwrap(), first);
    assert!(matches!(
        ledger.charge_lease("lease", &e(4), "k", 2),
        Err(BudgetError::IdempotencyConflict(_))
    ));
    assert_eq!(ledger.account_summary("lease").unwrap().3, e(3));
    assert!(matches!(
        ledger.charge_lease("lease", &e(u64::MAX), "k2", 3),
        Err(BudgetError::Overflow)
    ));
    assert_eq!(ledger.account_summary("lease").unwrap().3, e(3));
}

#[test]
fn held_executions_stay_booked() {
    let mut ledger = BudgetLedger::new();
    ledger.register_lease("lease", &micros(100)).unwrap();
    let held = |l: &BudgetLedger| l.account_summary("lease").unwrap().2;
    let a = ledger.reserve_execution("lease", "a", &micros(10), "ka", 1).unwrap();
    let b = ledger.reserve_execution("lease", "b", &micros(20), "kb", 2).unwrap();
    let c = ledger.reserve_execution("lease", "c", &micros(30), "kc", 3).unwrap();
    assert_eq!(held(&ledger), micros(60));
    // Nothing else that happens to the lease touches what is held.
    let child = ledger.reserve("lease", "child", &micros(5), 4).unwrap();
    ledger.register_lease("child", &micros(5)).unwrap();
    ledger.debit_lease("lease", &micros(3), "d", 5).unwrap();
    ledger.release(&child.id, 6).unwrap();
    assert_eq!(held(&ledger), micros(60));
    ledger.settle_execution(&b.id, &micros(7), "s", 7).unwrap();
    assert_eq!(held(&ledger), micros(40));
    ledger.release_execution(&a.id, 8).unwrap();
    assert_eq!(held(&ledger), c.held);
    ledger.check_invariants().unwrap();
}
