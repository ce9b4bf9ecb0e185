//! What the budget ledger keeps, over all of its operations.

use crate::budget::{
    budget_extensional, budget_of_at, Budget, BudgetDimension, BudgetErrorView, ExecutionState,
    LeaseAccount, LedgerView, ReceiptView, ReservationState, ReservationView,
};
use vstd::prelude::*;

verus! {

broadcast use budget_of_at;

proof fn total_at(a: LeaseAccount, d: BudgetDimension)
    requires
        a.total_fits(),
    ensures
        a.total().at(d) == a.reserved_out.at(d) + a.exec_held.at(d) + a.consumed.at(d),
        a.reserved_out.at(d) + a.exec_held.at(d) + a.consumed.at(d) <= u64::MAX,
{
    assert(a.reserved_out.at(d) + a.exec_held.at(d) <= u64::MAX);
    assert(a.reserved_out.plus(a.exec_held).at(d) + a.consumed.at(d) <= u64::MAX);
}

/// An account whose books, summed in each dimension, stay within the caps is
/// solvent.
proof fn solvent_if(a: LeaseAccount)
    requires
        forall|d: BudgetDimension|
            a.reserved_out.at(d) + a.exec_held.at(d) + a.consumed.at(d) <= #[trigger] a.caps.at(d),
    ensures
        a.solvent(),
{
    assert forall|d: BudgetDimension| #[trigger] a.reserved_out.at(d) + a.exec_held.at(d)
        <= u64::MAX by {
        assert(a.reserved_out.at(d) + a.exec_held.at(d) + a.consumed.at(d) <= a.caps.at(d));
    }
    assert forall|d: BudgetDimension| #[trigger]
        a.reserved_out.plus(a.exec_held).at(d) + a.consumed.at(d) <= u64::MAX by {
        assert(a.reserved_out.at(d) + a.exec_held.at(d) + a.consumed.at(d) <= a.caps.at(d));
    }
    assert forall|d: BudgetDimension| #[trigger] a.total().at(d) <= a.caps.at(d) by {
        total_at(a, d);
        assert(a.reserved_out.at(d) + a.exec_held.at(d) + a.consumed.at(d) <= a.caps.at(d));
    }
}

/// Conservation: in a solvent account the balance, the child holds, the held
/// executions and the consumption add up to the caps, in every dimension.
pub proof fn balance_conserves(a: LeaseAccount, d: BudgetDimension)
    requires
        a.solvent(),
    ensures
        a.balance().at(d) + a.reserved_out.at(d) + a.exec_held.at(d) + a.consumed.at(d)
            == a.caps.at(d),
{
    total_at(a, d);
    assert(a.total().at(d) <= a.caps.at(d));
}

/// A reservation takes from the balance of the parent exactly what it holds, in
/// every dimension, and nothing from any other account. It is granted exactly
/// if the balance covers it, for a child that has no account yet. One that asks
/// for more than the balance is told a dimension in which it does, with what it
/// needs and what is left there.
pub proof fn reserving_lowers_the_balance(
    l: LedgerView,
    id: Seq<char>,
    parent: Seq<char>,
    child: Seq<char>,
    max: Budget,
    now: i64,
)
    requires
        l.accounts.dom().contains(parent),
        l.accounts[parent].total_fits(),
        !l.accounts.dom().contains(child),
    ensures
        ({
            let (after, r) = l.reserve(id, parent, child, max, now);
            let left = l.accounts[parent].balance();
            &&& r is Ok <==> forall|d: BudgetDimension| #[trigger] max.at(d) <= left.at(d)
            &&& r matches Ok(h) ==> {
                &&& forall|d: BudgetDimension| #[trigger]
                    after.accounts[parent].balance().at(d) == left.at(d) - max.at(d)
                &&& forall|d: BudgetDimension| #[trigger]
                    after.accounts[parent].caps.at(d) == l.accounts[parent].caps.at(d)
                &&& forall|other: Seq<char>|
                    other != parent ==> (#[trigger] after.accounts.dom().contains(other)
                        <==> l.accounts.dom().contains(other)) && after.accounts[other]
                        == l.accounts[other]
                &&& after.accounts.dom().contains(parent)
                &&& after.reservations.dom().contains(id) && after.reservations[id] == h
                &&& h.id == id && h.parent_lease_id == parent && h.child_lease_id == child
                &&& h.state == ReservationState::Active && h.created_at_ms == now
                &&& forall|d: BudgetDimension|
                    #![trigger h.held.at(d)]
                    h.held.at(d) == max.at(d) && h.consumed.at(d) == 0
            }
            &&& r matches Err(e) ==> after == l && exists|d: BudgetDimension|
                #![trigger max.at(d)]
                max.at(d) > left.at(d) && e == (BudgetErrorView::Insufficient {
                    lease: parent,
                    dimension: d.name(),
                    needed: max.at(d),
                    remaining: left.at(d),
                })
        }),
{
    let a = l.accounts[parent];
    let left = a.balance();
    match left.short_from(max, 0) {
        None => {
            short_none(left, max, 0);
            let b = LeaseAccount { reserved_out: a.reserved_out.plus(max), ..a };
            assert(l.reserve(id, parent, child, max, now).0.accounts[parent] == b);
            assert forall|d: BudgetDimension| #[trigger]
                b.balance().at(d) == left.at(d) - max.at(d) by {
                total_at(a, d);
                assert(max.at(d) <= left.at(d));
                assert(a.reserved_out.at(d) + max.at(d) <= u64::MAX);
                assert(b.total().at(d) == a.total().at(d) + max.at(d));
            }
        },
        Some(d) => {
            short_some(left, max, 0);
            assert(max.at(d) > left.at(d));
        },
    }
}

proof fn short_some(have: Budget, need: Budget, i: int)
    requires
        0 <= i <= 8,
        have.short_from(need, i) is Some,
    ensures
        need.at(have.short_from(need, i)->0) > have.at(have.short_from(need, i)->0),
    decreases 8 - i,
{
    if i < 8 && have.at(BudgetDimension::nth(i)) >= need.at(BudgetDimension::nth(i)) {
        short_some(have, need, i + 1);
    }
}

/// A reservation, whether it succeeds or fails, keeps every account solvent.
pub proof fn reserve_keeps_solvency(
    l: LedgerView,
    id: Seq<char>,
    parent: Seq<char>,
    child: Seq<char>,
    max: Budget,
    now: i64,
)
    requires
        l.solvent(),
    ensures
        l.reserve(id, parent, child, max, now).0.solvent(),
{
    let (l2, r) = l.reserve(id, parent, child, max, now);
    if r is Ok {
        let a = l.accounts[parent];
        assert(a.solvent());
        short_none(a.balance(), max, 0);
        let b = LeaseAccount { reserved_out: a.reserved_out.plus(max), ..a };
        assert forall|d: BudgetDimension|
            b.reserved_out.at(d) + b.exec_held.at(d) + b.consumed.at(d) <= #[trigger] b.caps.at(
                d,
            ) by {
            balance_conserves(a, d);
            assert(max.at(d) <= a.balance().at(d));
        }
        solvent_if(b);
        assert forall|k: Seq<char>| #[trigger] l2.accounts.dom().contains(k) implies l2.accounts[k].solvent() by {
            if k != parent {
                assert(l.accounts.dom().contains(k));
            }
        }
    }
}

/// A budget without a shortfall from position `i` on covers the need there.
proof fn short_none(have: Budget, need: Budget, i: int)
    requires
        0 <= i <= 8,
        have.short_from(need, i) is None,
    ensures
        forall|d: BudgetDimension| d.rank() >= i ==> #[trigger] need.at(d) <= have.at(d),
    decreases 8 - i,
{
    if i < 8 {
        short_none(have, need, i + 1);
        assert forall|d: BudgetDimension| d.rank() >= i implies #[trigger] need.at(d)
            <= have.at(d) by {
            if d.rank() == i {
                assert(d == BudgetDimension::nth(i));
            }
        }
    }
}

/// Holding an execution keeps every account solvent.
pub proof fn reserve_execution_keeps_solvency(
    l: LedgerView,
    id: Seq<char>,
    lease: Seq<char>,
    action: Seq<char>,
    need: Budget,
    key: Seq<char>,
    now: i64,
)
    requires
        l.solvent(),
    ensures
        l.reserve_execution(id, lease, action, need, key, now).0.solvent(),
{
    let (l2, r) = l.reserve_execution(id, lease, action, need, key, now);
    if r is Ok && !l.exec_reserve_keys.dom().contains(key) {
        let a = l.accounts[lease];
        assert(a.solvent());
        short_none(a.balance(), need, 0);
        let b = LeaseAccount { exec_held: a.exec_held.plus(need), ..a };
        assert forall|d: BudgetDimension|
            b.reserved_out.at(d) + b.exec_held.at(d) + b.consumed.at(d) <= #[trigger] b.caps.at(
                d,
            ) by {
            balance_conserves(a, d);
            assert(need.at(d) <= a.balance().at(d));
        }
        solvent_if(b);
        assert forall|k: Seq<char>| #[trigger] l2.accounts.dom().contains(k) implies l2.accounts[k].solvent() by {
            if k != lease {
                assert(l.accounts.dom().contains(k));
            }
        }
    }
}

/// Spending directly against a lease keeps every account solvent.
pub proof fn debit_lease_keeps_solvency(
    l: LedgerView,
    lease: Seq<char>,
    actual: Budget,
    key: Seq<char>,
    now: i64,
)
    requires
        l.solvent(),
    ensures
        l.debit_lease(lease, actual, key, now).0.solvent(),
{
    let (l2, r) = l.debit_lease(lease, actual, key, now);
    if r is Ok && !l.debit_keys.dom().contains(key) {
        let a = l.accounts[lease];
        assert(a.solvent());
        let b = LeaseAccount { consumed: a.consumed.plus(actual), ..a };
        assert forall|d: BudgetDimension|
            b.reserved_out.at(d) + b.exec_held.at(d) + b.consumed.at(d) <= #[trigger] b.caps.at(
                d,
            ) by {
            balance_conserves(a, d);
            assert(actual.at(d) <= a.balance().at(d));
        }
        solvent_if(b);
        assert forall|k: Seq<char>| #[trigger] l2.accounts.dom().contains(k) implies l2.accounts[k].solvent() by {
            if k != lease {
                assert(l.accounts.dom().contains(k));
            }
        }
    }
}

/// Debits on a reservation, registration and rollback keep every account
/// solvent.
pub proof fn bookkeeping_keeps_solvency(
    l: LedgerView,
    id: Seq<char>,
    lease: Seq<char>,
    amount: Budget,
    key: Seq<char>,
    now: i64,
)
    requires
        l.solvent(),
    ensures
        l.debit(id, amount, key, now).0.solvent(),
        l.register(lease, amount).0.solvent(),
        l.rollback(lease).0.solvent(),
{
    let l1 = l.debit(id, amount, key, now).0;
    assert(l1.accounts == l.accounts);
    let l2 = l.register(lease, amount).0;
    assert forall|k: Seq<char>| #[trigger] l2.accounts.dom().contains(k) implies l2.accounts[k].solvent() by {
        if l.accounts.dom().contains(k) {
        } else {
            solvent_if(LeaseAccount::fresh(amount));
        }
    }
    let (l3, r3) = l.rollback(lease);
    if let Ok(Some(rid)) = l.rollback_plan(lease) {
        let res = l.reservations[rid];
        let p = l.accounts[res.parent_lease_id];
        let b = LeaseAccount { reserved_out: p.reserved_out.minus(res.held), ..p };
        assert(p.solvent());
        assert forall|d: BudgetDimension|
            b.reserved_out.at(d) + b.exec_held.at(d) + b.consumed.at(d) <= #[trigger] b.caps.at(
                d,
            ) by {
            balance_conserves(p, d);
        }
        solvent_if(b);
        assert forall|k: Seq<char>| #[trigger] l3.accounts.dom().contains(k) implies l3.accounts[k].solvent() by {
            if k != res.parent_lease_id {
                assert(l.accounts.dom().contains(k));
            }
        }
    } else {
        assert forall|k: Seq<char>| #[trigger] l3.accounts.dom().contains(k) implies l3.accounts[k].solvent() by {
            assert(l.accounts.dom().contains(k));
        }
    }
}

/// Releasing an execution keeps every account solvent.
pub proof fn release_execution_keeps_solvency(l: LedgerView, id: Seq<char>, now: i64)
    requires
        l.solvent(),
    ensures
        l.release_execution(id, now).0.solvent(),
{
    let (l2, r) = l.release_execution(id, now);
    if r is Ok {
        let e = l.executions[id];
        let a = l.accounts[e.lease_id];
        assert(a.solvent());
        let b = LeaseAccount { exec_held: a.exec_held.minus(e.held), ..a };
        assert forall|d: BudgetDimension|
            b.reserved_out.at(d) + b.exec_held.at(d) + b.consumed.at(d) <= #[trigger] b.caps.at(
                d,
            ) by {
            balance_conserves(a, d);
        }
        solvent_if(b);
        assert forall|k: Seq<char>| #[trigger] l2.accounts.dom().contains(k) implies l2.accounts[k].solvent() by {
            if k != e.lease_id {
                assert(l.accounts.dom().contains(k));
            }
        }
    } else {
        assert(l2.accounts == l.accounts);
    }
}

/// Settling an execution within its hold keeps every account solvent.
pub proof fn settle_within_hold_keeps_solvency(
    l: LedgerView,
    id: Seq<char>,
    actual: Budget,
    key: Seq<char>,
    now: i64,
)
    requires
        l.solvent(),
        executions_are_booked(l),
        l.executions.dom().contains(id) ==> l.executions[id].held.covers_all(actual),
    ensures
        l.settle_execution(id, actual, key, now).0.solvent(),
{
    let (l2, r) = l.settle_execution(id, actual, key, now);
    if !l.exec_settle_keys.dom().contains(key) && l.executions.dom().contains(id)
        && l.executions[id].state == ExecutionState::Held && l.accounts.dom().contains(
        l.executions[id].lease_id,
    ) {
        let e = l.executions[id];
        let a = l.accounts[e.lease_id];
        assert(a.solvent());
        held_executions_are_booked(l, id);
        let b = l2.accounts[e.lease_id];
        assert forall|d: BudgetDimension|
            b.reserved_out.at(d) + b.exec_held.at(d) + b.consumed.at(d) <= #[trigger] b.caps.at(
                d,
            ) by {
            balance_conserves(a, d);
            assert(e.held.at(d) <= a.exec_held.at(d));
            assert(actual.at(d) <= e.held.at(d));
        }
        solvent_if(b);
        assert forall|k: Seq<char>| #[trigger] l2.accounts.dom().contains(k) implies l2.accounts[k].solvent() by {
            if k != e.lease_id {
                assert(l.accounts.dom().contains(k));
            }
        }
    } else {
        assert(l2.accounts == l.accounts);
    }
}

/// Releasing a reservation whose child spent no more than was held for it
/// keeps every account solvent, and gives the parent back exactly what was
/// returned: spent budget is not resurrected.
pub proof fn release_conserves(l: LedgerView, id: Seq<char>, now: i64)
    requires
        l.solvent(),
        l.reservations.dom().contains(id) ==> {
            let r = l.reservations[id];
            &&& l.child_spend(r) matches Some(spent) ==> r.held.covers_all(spent)
            &&& l.accounts.dom().contains(r.parent_lease_id)
                ==> l.accounts[r.parent_lease_id].reserved_out.covers_all(r.held)
        },
    ensures
        l.release(id, now).0.solvent(),
        l.release(id, now).1 matches Ok(returned) ==> {
            let parent = l.reservations[id].parent_lease_id;
            forall|d: BudgetDimension| #[trigger]
                l.release(id, now).0.accounts[parent].balance().at(d) == l.accounts[parent].balance().at(
                    d,
                ) + returned.at(d)
        },
{
    let (l2, out) = l.release(id, now);
    if let Ok(returned) = out {
        let r = l.reservations[id];
        let spent = l.child_spend(r)->0;
        let p = l.accounts[r.parent_lease_id];
        let b = l2.accounts[r.parent_lease_id];
        assert(p.solvent());
        assert forall|d: BudgetDimension|
            b.reserved_out.at(d) + b.exec_held.at(d) + b.consumed.at(d) <= #[trigger] b.caps.at(
                d,
            ) by {
            balance_conserves(p, d);
            assert(spent.at(d) <= r.held.at(d));
            assert(r.held.at(d) <= p.reserved_out.at(d));
        }
        solvent_if(b);
        assert forall|d: BudgetDimension| #[trigger]
            b.balance().at(d) == p.balance().at(d) + returned.at(d) by {
            balance_conserves(p, d);
            balance_conserves(b, d);
            assert(spent.at(d) <= r.held.at(d));
            assert(r.held.at(d) <= p.reserved_out.at(d));
            assert(p.consumed.at(d) + spent.at(d) <= u64::MAX);
        }
        assert forall|k: Seq<char>| #[trigger] l2.accounts.dom().contains(k) implies l2.accounts[k].solvent() by {
            if k != r.parent_lease_id {
                assert(l.accounts.dom().contains(k));
            }
        }
    } else {
        assert(l2.accounts == l.accounts);
    }
}

/// A retried debit, settlement or execution hold answers as the first did and
/// charges nothing more.
pub proof fn retries_never_charge_twice(
    l: LedgerView,
    id: Seq<char>,
    id2: Seq<char>,
    lease: Seq<char>,
    action: Seq<char>,
    amount: Budget,
    key: Seq<char>,
    now: i64,
    later: i64,
)
    ensures
        l.debit(id, amount, key, now).1 is Ok ==> {
            let (l2, r) = l.debit(id, amount, key, now);
            l2.debit(id, amount, key, later) == (l2, r)
        },
        l.debit_lease(lease, amount, key, now).1 is Ok ==> {
            let (l2, r) = l.debit_lease(lease, amount, key, now);
            l2.debit_lease(lease, amount, key, later) == (l2, r)
        },
        l.charge_lease(lease, amount, key, now).1 is Ok ==> {
            let (l2, r) = l.charge_lease(lease, amount, key, now);
            l2.charge_lease(lease, amount, key, later) == (l2, r)
        },
        l.settle_execution(id, amount, key, now).1 is Ok ==> {
            let (l2, r) = l.settle_execution(id, amount, key, now);
            l2.settle_execution(id, amount, key, later) == (l2, r)
        },
        l.reserve_execution(id, lease, action, amount, key, now).1 is Ok ==> {
            let (l2, r) = l.reserve_execution(id, lease, action, amount, key, now);
            l2.reserve_execution(id2, lease, action, amount, key, later) == (l2, r)
        },
{
}

/// A key that was used for one debit refuses every other debit.
pub proof fn key_reuse_conflicts(
    l: LedgerView,
    id: Seq<char>,
    amount: Budget,
    other: Budget,
    key: Seq<char>,
    now: i64,
)
    requires
        amount != other,
        l.debit(id, amount, key, now).1 is Ok,
    ensures
        l.debit(id, amount, key, now).0.debit(id, other, key, now) == (
            l.debit(id, amount, key, now).0,
            Err::<ReceiptView, BudgetErrorView>(BudgetErrorView::IdempotencyConflict(key)),
        ),
{
}

/// Restoring the same reservation again changes nothing.
pub proof fn rehydrate_is_idempotent(l: LedgerView, r: ReservationView)
    requires
        l.rehydrate(r).1 is Ok,
    ensures
        l.rehydrate(r).0.rehydrate(r) == (l.rehydrate(r).0, Ok::<(), BudgetErrorView>(())),
{
}

/// A reservation is released at most once.
pub proof fn release_happens_once(l: LedgerView, id: Seq<char>, now: i64, later: i64)
    requires
        l.release(id, now).1 is Ok,
    ensures
        l.release(id, now).0.release(id, later) == (
            l.release(id, now).0,
            Err::<Budget, BudgetErrorView>(BudgetErrorView::ReservationNotActive(id)),
        ),
{
}

/// An execution ends exactly once: after a settlement or a release neither
/// succeeds again under a fresh key.
pub proof fn execution_ends_once(
    l: LedgerView,
    id: Seq<char>,
    actual: Budget,
    key: Seq<char>,
    fresh: Seq<char>,
    now: i64,
    later: i64,
)
    requires
        !l.exec_settle_keys.dom().contains(key),
        !l.exec_settle_keys.dom().contains(fresh),
        fresh != key,
    ensures
        l.settle_execution(id, actual, key, now).1 is Ok ==> {
            let l2 = l.settle_execution(id, actual, key, now).0;
            &&& l2.settle_execution(id, actual, fresh, later).1 == Err::<ReceiptView, BudgetErrorView>(
                BudgetErrorView::ExecutionNotHeld(id),
            )
            &&& l2.release_execution(id, later).1 == Err::<Budget, BudgetErrorView>(
                BudgetErrorView::ExecutionNotHeld(id),
            )
        },
        l.release_execution(id, now).1 is Ok ==> {
            let l2 = l.release_execution(id, now).0;
            &&& l2.settle_execution(id, actual, fresh, later).1 == Err::<ReceiptView, BudgetErrorView>(
                BudgetErrorView::ExecutionNotHeld(id),
            )
            &&& l2.release_execution(id, later).1 == Err::<Budget, BudgetErrorView>(
                BudgetErrorView::ExecutionNotHeld(id),
            )
        },
{
}

/// A refused reservation, debit, rehydration, registration or rollback leaves
/// the ledger as it was.
pub proof fn refusals_leave_the_ledger(
    l: LedgerView,
    id: Seq<char>,
    lease: Seq<char>,
    child: Seq<char>,
    amount: Budget,
    key: Seq<char>,
    r: ReservationView,
    now: i64,
)
    ensures
        l.reserve(id, lease, child, amount, now).1 is Err ==> l.reserve(
            id,
            lease,
            child,
            amount,
            now,
        ).0 == l,
        l.reserve_execution(id, lease, child, amount, key, now).1 is Err ==> l.reserve_execution(
            id,
            lease,
            child,
            amount,
            key,
            now,
        ).0 == l,
        l.debit(id, amount, key, now).1 is Err ==> l.debit(id, amount, key, now).0 == l,
        l.debit_lease(lease, amount, key, now).1 is Err ==> l.debit_lease(lease, amount, key, now).0
            == l,
        l.charge_lease(lease, amount, key, now).1 is Err ==> l.charge_lease(
            lease,
            amount,
            key,
            now,
        ).0 == l,
        l.rehydrate(r).1 is Err ==> l.rehydrate(r).0 == l,
        l.register(lease, amount).1 is Err ==> l.register(lease, amount).0 == l,
        l.rollback(lease).1 is Err ==> l.rollback(lease).0 == l,
{
}

/// What was spent is recorded in full: a charge under a fresh key fails only
/// where the counter is full, and the account that it overruns has nothing left.
pub proof fn charges_land(
    l: LedgerView,
    lease: Seq<char>,
    amount: Budget,
    key: Seq<char>,
    now: i64,
    d: BudgetDimension,
)
    requires
        l.accounts.dom().contains(lease),
        !l.debit_keys.dom().contains(key),
    ensures
        l.charge_lease(lease, amount, key, now).1 is Ok <==> l.accounts[lease].consumed.sum_fits(
            amount,
        ),
        l.charge_lease(lease, amount, key, now).1 is Ok ==> {
            let a = l.charge_lease(lease, amount, key, now).0.accounts[lease];
            &&& a.consumed.at(d) == l.accounts[lease].consumed.at(d) + amount.at(d)
            &&& a.total_fits() && a.caps.at(d) <= a.consumed.at(d) ==> a.balance().at(d) == 0
        },
{
    let a = l.charge_lease(lease, amount, key, now).0.accounts[lease];
    if l.charge_lease(lease, amount, key, now).1 is Ok && a.total_fits() {
        total_at(a, d);
    }
}

/// Holding an execution and releasing it gives the balance back.
pub proof fn released_execution_returns_its_hold(
    l: LedgerView,
    id: Seq<char>,
    lease: Seq<char>,
    action: Seq<char>,
    need: Budget,
    key: Seq<char>,
    now: i64,
    later: i64,
)
    requires
        !l.exec_reserve_keys.dom().contains(key),
        l.reserve_execution(id, lease, action, need, key, now).1 is Ok,
    ensures
        l.reserve_execution(id, lease, action, need, key, now).0.release_execution(id, later).1
            == Ok::<Budget, BudgetErrorView>(need),
        l.reserve_execution(id, lease, action, need, key, now).0.release_execution(
            id,
            later,
        ).0.accounts == l.accounts,
{
    let l1 = l.reserve_execution(id, lease, action, need, key, now).0;
    let l2 = l1.release_execution(id, later).0;
    let a = l.accounts[lease];
    let b = a.exec_held.plus(need).minus(need);
    short_none(a.balance(), need, 0);
    assert forall|d: BudgetDimension| #[trigger] b.at(d) == a.exec_held.at(d) by {
        total_at(a, d);
        assert(need.at(d) <= a.balance().at(d));
    }
    budget_extensional(b, a.exec_held);
    assert(l2.accounts =~= l.accounts);
}

/// Rolling a mint back undoes it: a reservation for a new child followed by
/// the child's registration leaves, after the rollback, the ledger that was
/// there before.
pub proof fn rollback_undoes_a_fresh_mint(
    l: LedgerView,
    id: Seq<char>,
    parent: Seq<char>,
    child: Seq<char>,
    max: Budget,
    caps: Budget,
    now: i64,
)
    requires
        !l.reservations.dom().contains(id),
        forall|k: Seq<char>| !l.names_child(k, child) && !l.holds_against(k, child),
        l.reserve(id, parent, child, max, now).1 is Ok,
    ensures
        ({
            let reserved = l.reserve(id, parent, child, max, now).0;
            let minted = reserved.register(child, caps);
            &&& minted.1 == Ok::<(), BudgetErrorView>(())
            &&& minted.0.rollback(child) == (l, Ok::<(), BudgetErrorView>(()))
        }),
{
    let reserved = l.reserve(id, parent, child, max, now).0;
    let minted = reserved.register(child, caps).0;
    assert(minted.names_child(id, child));
    assert forall|k: Seq<char>| minted.names_child(k, child) implies k == id by {
        if k != id {
            assert(l.names_child(k, child));
        }
    }
    assert forall|k: Seq<char>| !minted.holds_against(k, child) by {
        if k != id && minted.holds_against(k, child) {
            assert(l.holds_against(k, child));
        }
    }
    assert((choose|k: Seq<char>| minted.names_child(k, child)) == id);
    let p = l.accounts[parent];
    short_none(p.balance(), max, 0);
    let grown = p.reserved_out.plus(max);
    assert forall|d: BudgetDimension| #[trigger] max.at(d) <= grown.at(d) && grown.minus(max).at(d)
        == p.reserved_out.at(d) by {
        total_at(p, d);
        assert(max.at(d) <= p.balance().at(d));
    }
    budget_extensional(grown.minus(max), p.reserved_out);
    let back = minted.rollback(child).0;
    assert(back.accounts =~= l.accounts);
    assert(back.reservations =~= l.reservations);
}

/// Minting without a reservation is undone by the rollback too.
pub proof fn rollback_undoes_a_one_shot_mint(l: LedgerView, child: Seq<char>, caps: Budget)
    requires
        !l.accounts.dom().contains(child),
        forall|k: Seq<char>| !l.names_child(k, child) && !l.holds_against(k, child),
    ensures
        l.register(child, caps).0.rollback(child) == (l, Ok::<(), BudgetErrorView>(())),
{
    let minted = l.register(child, caps).0;
    assert forall|k: Seq<char>| !minted.names_child(k, child) && !minted.holds_against(k, child) by {
        assert(!l.names_child(k, child) && !l.holds_against(k, child));
    }
    assert(minted.rollback(child).0.accounts =~= l.accounts);
}

/// The sum of `g` over a finite set.
pub open spec fn set_sum(s: Set<Seq<char>>, g: spec_fn(Seq<char>) -> nat) -> nat
    decreases s.len(),
{
    if s.finite() && s.len() > 0 {
        let x = s.choose();
        g(x) + set_sum(s.remove(x), g)
    } else {
        0
    }
}

proof fn set_sum_remove(s: Set<Seq<char>>, g: spec_fn(Seq<char>) -> nat, y: Seq<char>)
    requires
        s.finite(),
        s.contains(y),
    ensures
        set_sum(s, g) == g(y) + set_sum(s.remove(y), g),
    decreases s.len(),
{
    let x = s.choose();
    if x != y {
        set_sum_remove(s.remove(x), g, y);
        set_sum_remove(s.remove(y), g, x);
        assert(s.remove(x).remove(y) =~= s.remove(y).remove(x));
    }
}

proof fn set_sum_le(s: Set<Seq<char>>, g: spec_fn(Seq<char>) -> nat, h: spec_fn(Seq<char>) -> nat)
    requires
        s.finite(),
        forall|x: Seq<char>| s.contains(x) ==> #[trigger] g(x) <= h(x),
    ensures
        set_sum(s, g) <= set_sum(s, h),
    decreases s.len(),
{
    if s.len() > 0 {
        let x = s.choose();
        assert(g(x) <= h(x));
        set_sum_le(s.remove(x), g, h);
    }
}

/// What the reservation `id` holds against `lease` in dimension `d`.
pub open spec fn hold_of(l: LedgerView, lease: Seq<char>, d: BudgetDimension) -> spec_fn(
    Seq<char>,
) -> nat {
    |id: Seq<char>|
        if l.holds_against(id, lease) {
            l.reservations[id].held.at(d) as nat
        } else {
            0
        }
}

/// The sum of the active child reservations held against `lease`.
pub open spec fn child_holds(l: LedgerView, lease: Seq<char>, d: BudgetDimension) -> nat {
    set_sum(l.reservations.dom(), hold_of(l, lease, d))
}

/// Every active reservation is held against a registered lease, whose books
/// cover all that is held against it.
pub open spec fn holds_are_booked(l: LedgerView) -> bool {
    &&& l.reservations.dom().finite()
    &&& forall|id: Seq<char>| #[trigger]
        l.reservations.dom().contains(id) && l.reservations[id].state == ReservationState::Active
            ==> l.accounts.dom().contains(l.reservations[id].parent_lease_id)
    &&& forall|lease: Seq<char>, d: BudgetDimension|
        l.accounts.dom().contains(lease) ==> #[trigger] child_holds(l, lease, d)
            <= l.accounts[lease].reserved_out.at(d)
}

/// The fan-out invariant: the active child reservations, the held executions
/// and the consumption of a lease never exceed its caps, in any dimension.
pub proof fn fan_out_stays_within_caps(l: LedgerView, lease: Seq<char>, d: BudgetDimension)
    requires
        holds_are_booked(l),
        l.solvent(),
        l.accounts.dom().contains(lease),
    ensures
        child_holds(l, lease, d) + l.accounts[lease].exec_held.at(d)
            + l.accounts[lease].consumed.at(d) <= l.accounts[lease].caps.at(d),
{
    balance_conserves(l.accounts[lease], d);
    assert(child_holds(l, lease, d) <= l.accounts[lease].reserved_out.at(d));
}

/// The empty ledger has nothing to book.
pub proof fn empty_ledger_is_booked()
    ensures
        holds_are_booked(LedgerView::empty()),
        LedgerView::empty().solvent(),
{
    assert forall|lease: Seq<char>, d: BudgetDimension|
        LedgerView::empty().accounts.dom().contains(lease) implies #[trigger] child_holds(
        LedgerView::empty(),
        lease,
        d,
    ) <= LedgerView::empty().accounts[lease].reserved_out.at(d) by {}
}

/// A single hold is part of the sum.
proof fn hold_within_sum(l: LedgerView, id: Seq<char>, d: BudgetDimension)
    requires
        holds_are_booked(l),
        l.reservations.dom().contains(id),
        l.reservations[id].state == ReservationState::Active,
    ensures
        l.reservations[id].held.at(d) <= l.accounts[l.reservations[id].parent_lease_id].reserved_out.at(
            d,
        ),
{
    let parent = l.reservations[id].parent_lease_id;
    set_sum_remove(l.reservations.dom(), hold_of(l, parent, d), id);
    assert(l.holds_against(id, parent));
    assert(child_holds(l, parent, d) <= l.accounts[parent].reserved_out.at(d));
}

/// Without active reservations against it, a lease has nothing held.
proof fn no_holds(l: LedgerView, lease: Seq<char>, d: BudgetDimension)
    requires
        l.reservations.dom().finite(),
        forall|id: Seq<char>| !l.holds_against(id, lease),
    ensures
        child_holds(l, lease, d) == 0,
{
    let zero = |id: Seq<char>| 0nat;
    set_sum_le(l.reservations.dom(), hold_of(l, lease, d), zero);
    zero_sum(l.reservations.dom());
}

proof fn zero_sum(s: Set<Seq<char>>)
    requires
        s.finite(),
    ensures
        set_sum(s, |id: Seq<char>| 0nat) == 0,
    decreases s.len(),
{
    if s.len() > 0 {
        zero_sum(s.remove(s.choose()));
    }
}

/// Putting the active reservation `r` under `id` adds at most its hold to its
/// parent's sum, and nothing to another's.
proof fn sum_after_insert(l: LedgerView, l2: LedgerView, id: Seq<char>, r: ReservationView)
    requires
        l.reservations.dom().finite(),
        l2.reservations == l.reservations.insert(id, r),
    ensures
        l2.reservations.dom().finite(),
        forall|lease: Seq<char>, d: BudgetDimension| #[trigger]
            child_holds(l2, lease, d) <= child_holds(l, lease, d) + (if r.parent_lease_id == lease
                && r.state == ReservationState::Active {
                r.held.at(d) as nat
            } else {
                0
            }),
{
    assert(l2.reservations.dom() =~= l.reservations.dom().insert(id));
    assert forall|lease: Seq<char>, d: BudgetDimension| #[trigger]
        child_holds(l2, lease, d) <= child_holds(l, lease, d) + (if r.parent_lease_id == lease
            && r.state == ReservationState::Active {
            r.held.at(d) as nat
        } else {
            0
        }) by {
        let g = hold_of(l, lease, d);
        let g2 = hold_of(l2, lease, d);
        let rest = l.reservations.dom().remove(id);
        set_sum_remove(l2.reservations.dom(), g2, id);
        assert(l2.reservations.dom().remove(id) =~= rest);
        assert forall|x: Seq<char>| rest.contains(x) implies #[trigger] g2(x) <= g(x) by {}
        set_sum_le(rest, g2, g);
        if l.reservations.dom().contains(id) {
            set_sum_remove(l.reservations.dom(), g, id);
        } else {
            assert(rest =~= l.reservations.dom());
        }
    }
}

/// Replacing `old_r` under `id` by an inactive reservation takes its hold out
/// of its parent's sum, and leaves every other sum.
proof fn sum_after_close(l: LedgerView, l2: LedgerView, id: Seq<char>)
    requires
        l.reservations.dom().finite(),
        l.reservations.dom().contains(id),
        l.reservations[id].state == ReservationState::Active,
        l2.reservations.dom().remove(id) == l.reservations.dom().remove(id),
        forall|k: Seq<char>| k != id && l.reservations.dom().contains(k) ==> l2.reservations[k]
            == l.reservations[k],
        l2.reservations.dom().contains(id) ==> l2.reservations[id].state
            != ReservationState::Active,
    ensures
        l2.reservations.dom().finite(),
        forall|lease: Seq<char>, d: BudgetDimension| #[trigger]
            child_holds(l2, lease, d) + (if l.reservations[id].parent_lease_id == lease {
                l.reservations[id].held.at(d) as nat
            } else {
                0
            }) <= child_holds(l, lease, d),
{
    let rest = l.reservations.dom().remove(id);
    if l2.reservations.dom().contains(id) {
        assert(l2.reservations.dom() =~= rest.insert(id));
    } else {
        assert(l2.reservations.dom() =~= rest);
    }
    assert forall|lease: Seq<char>, d: BudgetDimension| #[trigger]
        child_holds(l2, lease, d) + (if l.reservations[id].parent_lease_id == lease {
            l.reservations[id].held.at(d) as nat
        } else {
            0
        }) <= child_holds(l, lease, d) by {
        let g = hold_of(l, lease, d);
        let g2 = hold_of(l2, lease, d);
        set_sum_remove(l.reservations.dom(), g, id);
        assert forall|x: Seq<char>| rest.contains(x) implies #[trigger] g2(x) <= g(x) by {
            assert(l.reservations.dom().remove(id).contains(x));
            assert(l2.reservations.dom().remove(id).contains(x));
        }
        set_sum_le(rest, g2, g);
        if l2.reservations.dom().contains(id) {
            set_sum_remove(l2.reservations.dom(), g2, id);
            assert(!l2.holds_against(id, lease));
        }
    }
}

/// Reserving and restoring keep every hold booked.
pub proof fn reserve_keeps_holds_booked(
    l: LedgerView,
    id: Seq<char>,
    parent: Seq<char>,
    child: Seq<char>,
    max: Budget,
    r: ReservationView,
    now: i64,
)
    requires
        holds_are_booked(l),
    ensures
        holds_are_booked(l.reserve(id, parent, child, max, now).0),
        holds_are_booked(l.rehydrate(r).0),
{
    let (l2, out) = l.reserve(id, parent, child, max, now);
    if out is Ok {
        let v = l2.reservations[id];
        let a = l.accounts[parent];
        short_none(a.balance(), max, 0);
        sum_after_insert(l, l2, id, v);
        assert forall|lease: Seq<char>, d: BudgetDimension|
            l2.accounts.dom().contains(lease) implies #[trigger] child_holds(l2, lease, d)
            <= l2.accounts[lease].reserved_out.at(d) by {
            assert(l.accounts.dom().contains(lease));
            assert(child_holds(l, lease, d) <= l.accounts[lease].reserved_out.at(d));
            total_at(a, d);
            assert(max.at(d) <= a.balance().at(d));
        }
    }
    let (l3, out3) = l.rehydrate(r);
    if out3 is Ok && !l.reservations.dom().contains(r.id) {
        let a = l.accounts[r.parent_lease_id];
        sum_after_insert(l, l3, r.id, r);
        assert forall|lease: Seq<char>, d: BudgetDimension|
            l3.accounts.dom().contains(lease) implies #[trigger] child_holds(l3, lease, d)
            <= l3.accounts[lease].reserved_out.at(d) by {
            assert(l.accounts.dom().contains(lease));
            assert(child_holds(l, lease, d) <= l.accounts[lease].reserved_out.at(d));
            assert(a.reserved_out.at(d) + r.held.at(d) <= u64::MAX);
        }
    }
}

/// Registration and rollback keep every hold booked.
pub proof fn mint_and_rollback_keep_holds_booked(l: LedgerView, lease: Seq<char>, caps: Budget)
    requires
        holds_are_booked(l),
    ensures
        holds_are_booked(l.register(lease, caps).0),
        holds_are_booked(l.rollback(lease).0),
{
    let (l2, out) = l.register(lease, caps);
    if out is Ok {
        assert forall|x: Seq<char>, d: BudgetDimension|
            l2.accounts.dom().contains(x) implies #[trigger] child_holds(l2, x, d)
            <= l2.accounts[x].reserved_out.at(d) by {
            same_reservations(l, l2, x, d);
            if x == lease {
                assert forall|id: Seq<char>| !l.holds_against(id, lease) by {
                    if l.holds_against(id, lease) {
                        assert(l.reservations.dom().contains(id));
                    }
                }
                no_holds(l, lease, d);
            } else {
                assert(child_holds(l, x, d) <= l.accounts[x].reserved_out.at(d));
            }
        }
    }
    let (l3, out3) = l.rollback(lease);
    match l.rollback_plan(lease) {
        Ok(Some(id)) => {
            assert(exists|k: Seq<char>| l.names_child(k, lease));
            let r = l.reservations[id];
            assert(l.names_child(id, lease));
            assert(l3.reservations.dom().remove(id) =~= l.reservations.dom().remove(id));
            sum_after_close(l, l3, id);
            assert forall|x: Seq<char>, d: BudgetDimension|
                l3.accounts.dom().contains(x) implies #[trigger] child_holds(l3, x, d)
                <= l3.accounts[x].reserved_out.at(d) by {
                assert(l.accounts.dom().contains(x));
                assert(child_holds(l, x, d) <= l.accounts[x].reserved_out.at(d));
                hold_within_sum(l, id, d);
            }
            assert forall|k: Seq<char>| #[trigger]
                l3.reservations.dom().contains(k) && l3.reservations[k].state
                    == ReservationState::Active implies l3.accounts.dom().contains(
                l3.reservations[k].parent_lease_id,
            ) by {
                assert(l.reservations.dom().contains(k));
                assert(!l.holds_against(k, lease));
            }
        },
        Ok(None) => {
            assert forall|x: Seq<char>, d: BudgetDimension|
                l3.accounts.dom().contains(x) implies #[trigger] child_holds(l3, x, d)
                <= l3.accounts[x].reserved_out.at(d) by {
                same_reservations(l, l3, x, d);
                assert(child_holds(l, x, d) <= l.accounts[x].reserved_out.at(d));
            }
            assert forall|k: Seq<char>| #[trigger]
                l3.reservations.dom().contains(k) && l3.reservations[k].state
                    == ReservationState::Active implies l3.accounts.dom().contains(
                l3.reservations[k].parent_lease_id,
            ) by {
                assert(l.reservations.dom().contains(k));
                assert(!l.holds_against(k, lease));
            }
        },
        Err(_) => {},
    }
}

proof fn same_reservations(l: LedgerView, l2: LedgerView, lease: Seq<char>, d: BudgetDimension)
    requires
        l.reservations == l2.reservations,
        l.reservations.dom().finite(),
    ensures
        child_holds(l, lease, d) == child_holds(l2, lease, d),
{
    let g = hold_of(l, lease, d);
    let g2 = hold_of(l2, lease, d);
    set_sum_le(l.reservations.dom(), g, g2);
    set_sum_le(l.reservations.dom(), g2, g);
}

/// Debits on reservations and releases keep every hold booked.
pub proof fn debit_and_release_keep_holds_booked(
    l: LedgerView,
    id: Seq<char>,
    actual: Budget,
    key: Seq<char>,
    now: i64,
)
    requires
        holds_are_booked(l),
    ensures
        holds_are_booked(l.debit(id, actual, key, now).0),
        holds_are_booked(l.release(id, now).0),
{
    let (l2, out) = l.debit(id, actual, key, now);
    if out is Ok && !l.debit_keys.dom().contains(key) {
        let r = l.reservations[id];
        assert(l2.reservations.dom() =~= l.reservations.dom());
        assert forall|x: Seq<char>, d: BudgetDimension|
            l2.accounts.dom().contains(x) implies #[trigger] child_holds(l2, x, d)
            <= l2.accounts[x].reserved_out.at(d) by {
            assert(child_holds(l, x, d) <= l.accounts[x].reserved_out.at(d));
            let g = hold_of(l, x, d);
            let g2 = hold_of(l2, x, d);
            assert forall|k: Seq<char>| l.reservations.dom().contains(k) implies #[trigger] g2(k)
                <= g(k) by {}
            set_sum_le(l.reservations.dom(), g2, g);
        }
    }
    let (l3, out3) = l.release(id, now);
    if l.reservations.dom().contains(id) && l.reservations[id].state == ReservationState::Active {
        let r = l.reservations[id];
        assert(l3.reservations.dom().remove(id) =~= l.reservations.dom().remove(id));
        sum_after_close(l, l3, id);
        assert forall|x: Seq<char>, d: BudgetDimension|
            l3.accounts.dom().contains(x) implies #[trigger] child_holds(l3, x, d)
            <= l3.accounts[x].reserved_out.at(d) by {
            assert(l.accounts.dom().contains(x));
            assert(child_holds(l, x, d) <= l.accounts[x].reserved_out.at(d));
            hold_within_sum(l, id, d);
        }
    }
}

/// The execution lifecycle and direct spend keep every hold booked.
pub proof fn execution_keeps_holds_booked(
    l: LedgerView,
    id: Seq<char>,
    lease: Seq<char>,
    action: Seq<char>,
    amount: Budget,
    key: Seq<char>,
    now: i64,
)
    requires
        holds_are_booked(l),
    ensures
        holds_are_booked(l.reserve_execution(id, lease, action, amount, key, now).0),
        holds_are_booked(l.settle_execution(id, amount, key, now).0),
        holds_are_booked(l.release_execution(id, now).0),
        holds_are_booked(l.debit_lease(lease, amount, key, now).0),
        holds_are_booked(l.charge_lease(lease, amount, key, now).0),
{
    booked_if_same(l, l.reserve_execution(id, lease, action, amount, key, now).0);
    booked_if_same(l, l.settle_execution(id, amount, key, now).0);
    booked_if_same(l, l.release_execution(id, now).0);
    booked_if_same(l, l.debit_lease(lease, amount, key, now).0);
    booked_if_same(l, l.charge_lease(lease, amount, key, now).0);
}

proof fn booked_if_same(l: LedgerView, l2: LedgerView)
    requires
        holds_are_booked(l),
        l.reservations == l2.reservations,
        l.accounts.dom() =~= l2.accounts.dom(),
        forall|k: Seq<char>| #[trigger] l.accounts.dom().contains(k) ==> l2.accounts[k].reserved_out
            == l.accounts[k].reserved_out,
    ensures
        holds_are_booked(l2),
{
    assert forall|x: Seq<char>, d: BudgetDimension|
        l2.accounts.dom().contains(x) implies #[trigger] child_holds(l2, x, d)
        <= l2.accounts[x].reserved_out.at(d) by {
        same_reservations(l, l2, x, d);
        assert(l.accounts.dom().contains(x));
        assert(child_holds(l, x, d) <= l.accounts[x].reserved_out.at(d));
    }
}

/// What the execution `id` holds against `lease` in dimension `d`.
pub open spec fn exec_hold_of(l: LedgerView, lease: Seq<char>, d: BudgetDimension) -> spec_fn(
    Seq<char>,
) -> nat {
    |id: Seq<char>|
        if l.executes_against(id, lease) {
            l.executions[id].held.at(d) as nat
        } else {
            0
        }
}

/// The sum of what the held executions of `lease` hold.
pub open spec fn exec_holds(l: LedgerView, lease: Seq<char>, d: BudgetDimension) -> nat {
    set_sum(l.executions.dom(), exec_hold_of(l, lease, d))
}

/// The books of every registered lease cover all that its held executions hold.
pub open spec fn executions_are_booked(l: LedgerView) -> bool {
    &&& l.executions.dom().finite()
    &&& forall|lease: Seq<char>, d: BudgetDimension|
        l.accounts.dom().contains(lease) ==> #[trigger] exec_holds(l, lease, d)
            <= l.accounts[lease].exec_held.at(d)
}

/// An execution that is held is booked in its account: what it holds is part of
/// what the account holds for executions.
pub proof fn held_executions_are_booked(l: LedgerView, id: Seq<char>)
    requires
        executions_are_booked(l),
        l.executions.dom().contains(id),
        l.executions[id].state == ExecutionState::Held,
        l.accounts.dom().contains(l.executions[id].lease_id),
    ensures
        l.accounts[l.executions[id].lease_id].exec_held.covers_all(l.executions[id].held),
{
    let e = l.executions[id];
    assert forall|d: BudgetDimension| #[trigger] e.held.at(d)
        <= l.accounts[e.lease_id].exec_held.at(d) by {
        set_sum_remove(l.executions.dom(), exec_hold_of(l, e.lease_id, d), id);
        assert(l.executes_against(id, e.lease_id));
        assert(exec_holds(l, e.lease_id, d) <= l.accounts[e.lease_id].exec_held.at(d));
    }
}

/// The empty ledger has no executions to book.
pub proof fn empty_ledger_books_no_executions()
    ensures
        executions_are_booked(LedgerView::empty()),
{
}

/// The sums are the same where the executions are.
proof fn same_executions(l: LedgerView, l2: LedgerView, lease: Seq<char>, d: BudgetDimension)
    requires
        l.executions == l2.executions,
        l.executions.dom().finite(),
    ensures
        exec_holds(l, lease, d) == exec_holds(l2, lease, d),
{
    let g = exec_hold_of(l, lease, d);
    let g2 = exec_hold_of(l2, lease, d);
    set_sum_le(l.executions.dom(), g, g2);
    set_sum_le(l.executions.dom(), g2, g);
}

/// A step that touches no execution, adds no account and lowers no `exec_held`
/// keeps every execution booked.
proof fn executions_stay_booked(l: LedgerView, l2: LedgerView)
    requires
        executions_are_booked(l),
        l.executions == l2.executions,
        forall|k: Seq<char>| #[trigger]
            l2.accounts.dom().contains(k) ==> l.accounts.dom().contains(k) && l2.accounts[k].exec_held
                == l.accounts[k].exec_held,
    ensures
        executions_are_booked(l2),
{
    assert forall|x: Seq<char>, d: BudgetDimension|
        l2.accounts.dom().contains(x) implies #[trigger] exec_holds(l2, x, d)
        <= l2.accounts[x].exec_held.at(d) by {
        same_executions(l, l2, x, d);
        assert(l.accounts.dom().contains(x));
        assert(exec_holds(l, x, d) <= l.accounts[x].exec_held.at(d));
    }
}

/// Putting a held execution under `id` adds at most its hold to its lease's sum.
proof fn exec_sum_after_insert(l: LedgerView, l2: LedgerView, id: Seq<char>)
    requires
        l.executions.dom().finite(),
        l2.executions.dom() == l.executions.dom().insert(id),
        forall|k: Seq<char>| k != id && l.executions.dom().contains(k) ==> l2.executions[k]
            == l.executions[k],
    ensures
        l2.executions.dom().finite(),
        forall|lease: Seq<char>, d: BudgetDimension| #[trigger]
            exec_holds(l2, lease, d) <= exec_holds(l, lease, d) + (if l2.executes_against(
                id,
                lease,
            ) {
                l2.executions[id].held.at(d) as nat
            } else {
                0
            }),
{
    assert forall|lease: Seq<char>, d: BudgetDimension| #[trigger]
        exec_holds(l2, lease, d) <= exec_holds(l, lease, d) + (if l2.executes_against(id, lease) {
            l2.executions[id].held.at(d) as nat
        } else {
            0
        }) by {
        let g = exec_hold_of(l, lease, d);
        let g2 = exec_hold_of(l2, lease, d);
        let rest = l.executions.dom().remove(id);
        set_sum_remove(l2.executions.dom(), g2, id);
        assert(l2.executions.dom().remove(id) =~= rest);
        assert forall|x: Seq<char>| rest.contains(x) implies #[trigger] g2(x) <= g(x) by {
            assert(l.executions.dom().contains(x));
        }
        set_sum_le(rest, g2, g);
        if l.executions.dom().contains(id) {
            set_sum_remove(l.executions.dom(), g, id);
        } else {
            assert(rest =~= l.executions.dom());
        }
    }
}

/// Ending the held execution `id` takes its hold out of its lease's sum, and
/// leaves every other sum.
proof fn exec_sum_after_end(l: LedgerView, l2: LedgerView, id: Seq<char>)
    requires
        l.executions.dom().finite(),
        l.executions.dom().contains(id),
        l.executions[id].state == ExecutionState::Held,
        l2.executions.dom() == l.executions.dom(),
        forall|k: Seq<char>| k != id && l.executions.dom().contains(k) ==> l2.executions[k]
            == l.executions[k],
        l2.executions[id].state != ExecutionState::Held,
    ensures
        forall|lease: Seq<char>, d: BudgetDimension| #[trigger]
            exec_holds(l2, lease, d) + (if l.executions[id].lease_id == lease {
                l.executions[id].held.at(d) as nat
            } else {
                0
            }) <= exec_holds(l, lease, d),
{
    assert forall|lease: Seq<char>, d: BudgetDimension| #[trigger]
        exec_holds(l2, lease, d) + (if l.executions[id].lease_id == lease {
            l.executions[id].held.at(d) as nat
        } else {
            0
        }) <= exec_holds(l, lease, d) by {
        let g = exec_hold_of(l, lease, d);
        let g2 = exec_hold_of(l2, lease, d);
        let rest = l.executions.dom().remove(id);
        set_sum_remove(l.executions.dom(), g, id);
        set_sum_remove(l2.executions.dom(), g2, id);
        assert forall|x: Seq<char>| rest.contains(x) implies #[trigger] g2(x) <= g(x) by {
            assert(l.executions.dom().contains(x));
        }
        set_sum_le(rest, g2, g);
        assert(!l2.executes_against(id, lease));
    }
}

/// Holding, settling and releasing executions keeps every held execution
/// booked.
pub proof fn execution_keeps_executions_booked(
    l: LedgerView,
    id: Seq<char>,
    lease: Seq<char>,
    action: Seq<char>,
    amount: Budget,
    key: Seq<char>,
    now: i64,
)
    requires
        executions_are_booked(l),
    ensures
        executions_are_booked(l.reserve_execution(id, lease, action, amount, key, now).0),
        executions_are_booked(l.settle_execution(id, amount, key, now).0),
        executions_are_booked(l.release_execution(id, now).0),
{
    let (l1, out1) = l.reserve_execution(id, lease, action, amount, key, now);
    if out1 is Ok && !l.exec_reserve_keys.dom().contains(key) {
        let a = l.accounts[lease];
        short_none(a.balance(), amount, 0);
        assert(l1.executions.dom() =~= l.executions.dom().insert(id));
        exec_sum_after_insert(l, l1, id);
        assert forall|x: Seq<char>, d: BudgetDimension|
            l1.accounts.dom().contains(x) implies #[trigger] exec_holds(l1, x, d)
            <= l1.accounts[x].exec_held.at(d) by {
            assert(l.accounts.dom().contains(x));
            assert(exec_holds(l, x, d) <= l.accounts[x].exec_held.at(d));
            total_at(a, d);
            assert(amount.at(d) <= a.balance().at(d));
        }
    }
    let l2 = l.settle_execution(id, amount, key, now).0;
    if !l.exec_settle_keys.dom().contains(key) {
        assert(l2.accounts.dom() =~= l.accounts.dom());
        ending_keeps_executions_booked(l, l2, id);
    }
    let l3 = l.release_execution(id, now).0;
    assert(l3.accounts.dom() =~= l.accounts.dom());
    ending_keeps_executions_booked(l, l3, id);
}

proof fn ending_keeps_executions_booked(l: LedgerView, l2: LedgerView, id: Seq<char>)
    requires
        executions_are_booked(l),
        if l.executions.dom().contains(id) && l.executions[id].state == ExecutionState::Held {
            let e = l.executions[id];
            &&& l2.executions == l.executions.insert(id, l2.executions[id])
            &&& l2.executions[id].state != ExecutionState::Held
            &&& l2.accounts.dom() == l.accounts.dom()
            &&& forall|k: Seq<char>| #[trigger]
                l.accounts.dom().contains(k) ==> l2.accounts[k].exec_held == (if k == e.lease_id {
                    l.accounts[k].exec_held.minus(e.held)
                } else {
                    l.accounts[k].exec_held
                })
        } else {
            l2 == l
        },
    ensures
        executions_are_booked(l2),
{
    if l.executions.dom().contains(id) && l.executions[id].state == ExecutionState::Held {
        assert(l2.executions.dom() =~= l.executions.dom());
        exec_sum_after_end(l, l2, id);
        assert forall|x: Seq<char>, d: BudgetDimension|
            l2.accounts.dom().contains(x) implies #[trigger] exec_holds(l2, x, d)
            <= l2.accounts[x].exec_held.at(d) by {
            assert(l.accounts.dom().contains(x));
            assert(exec_holds(l, x, d) <= l.accounts[x].exec_held.at(d));
        }
    }
}

/// Every other operation keeps every held execution booked: reservations, their
/// debits, releases and restoration, direct spend, a rollback, and a
/// registration under a name that no held execution carries.
pub proof fn bookkeeping_keeps_executions_booked(
    l: LedgerView,
    id: Seq<char>,
    lease: Seq<char>,
    child: Seq<char>,
    amount: Budget,
    key: Seq<char>,
    r: ReservationView,
    now: i64,
)
    requires
        executions_are_booked(l),
    ensures
        executions_are_booked(l.reserve(id, lease, child, amount, now).0),
        executions_are_booked(l.debit(id, amount, key, now).0),
        executions_are_booked(l.release(id, now).0),
        executions_are_booked(l.rehydrate(r).0),
        executions_are_booked(l.debit_lease(lease, amount, key, now).0),
        executions_are_booked(l.charge_lease(lease, amount, key, now).0),
        executions_are_booked(l.rollback(lease).0),
        (forall|k: Seq<char>| !l.executes_against(k, lease)) ==> executions_are_booked(
            l.register(lease, amount).0,
        ),
{
    executions_stay_booked(l, l.reserve(id, lease, child, amount, now).0);
    executions_stay_booked(l, l.debit(id, amount, key, now).0);
    executions_stay_booked(l, l.release(id, now).0);
    executions_stay_booked(l, l.rehydrate(r).0);
    executions_stay_booked(l, l.debit_lease(lease, amount, key, now).0);
    executions_stay_booked(l, l.charge_lease(lease, amount, key, now).0);
    executions_stay_booked(l, l.rollback(lease).0);
    let (l2, out) = l.register(lease, amount);
    if out is Ok && forall|k: Seq<char>| !l.executes_against(k, lease) {
        assert forall|x: Seq<char>, d: BudgetDimension|
            l2.accounts.dom().contains(x) implies #[trigger] exec_holds(l2, x, d)
            <= l2.accounts[x].exec_held.at(d) by {
            same_executions(l, l2, x, d);
            if x == lease {
                let zero = |k: Seq<char>| 0nat;
                set_sum_le(l.executions.dom(), exec_hold_of(l, lease, d), zero);
                zero_sum(l.executions.dom());
            } else {
                assert(exec_holds(l, x, d) <= l.accounts[x].exec_held.at(d));
            }
        }
    }
}

/// A reconciliation releases one reservation after another, and so keeps every
/// held execution booked.
pub proof fn reconciliation_keeps_executions_booked(
    l: LedgerView,
    ids: Seq<Seq<char>>,
    now: i64,
)
    requires
        executions_are_booked(l),
    ensures
        executions_are_booked(l.release_each(ids, now).0),
    decreases ids.len(),
{
    if ids.len() > 0 {
        reconciliation_keeps_executions_booked(l, ids.drop_last(), now);
        let before = l.release_each(ids.drop_last(), now).0;
        executions_stay_booked(before, before.release(ids.last(), now).0);
    }
}

/// Of a lease whose books are solvent, the child reservations, the executions
/// that are held and the consumption stay within the caps together.
pub proof fn held_executions_stay_within_caps(l: LedgerView, lease: Seq<char>, d: BudgetDimension)
    requires
        holds_are_booked(l),
        executions_are_booked(l),
        l.solvent(),
        l.accounts.dom().contains(lease),
    ensures
        child_holds(l, lease, d) + exec_holds(l, lease, d) + l.accounts[lease].consumed.at(d)
            <= l.accounts[lease].caps.at(d),
{
    fan_out_stays_within_caps(l, lease, d);
    assert(exec_holds(l, lease, d) <= l.accounts[lease].exec_held.at(d));
}

/// Holding an execution under a new key takes what is needed from the balance of
/// its lease, in every dimension, and nothing from any other account. It is
/// granted exactly if the balance covers the need, and is on record as held,
/// for its action, under its key.
pub proof fn holding_an_execution_lowers_the_balance(
    l: LedgerView,
    id: Seq<char>,
    lease: Seq<char>,
    action: Seq<char>,
    need: Budget,
    key: Seq<char>,
    now: i64,
)
    requires
        !l.exec_reserve_keys.dom().contains(key),
        l.accounts.dom().contains(lease),
        l.accounts[lease].total_fits(),
    ensures
        ({
            let (after, r) = l.reserve_execution(id, lease, action, need, key, now);
            let left = l.accounts[lease].balance();
            &&& r is Ok <==> forall|d: BudgetDimension| #[trigger] need.at(d) <= left.at(d)
            &&& r is Err ==> after == l
            &&& r matches Ok(e) ==> {
                &&& forall|d: BudgetDimension| #[trigger]
                    after.accounts[lease].balance().at(d) == left.at(d) - need.at(d)
                &&& after.accounts[lease].caps == l.accounts[lease].caps
                &&& after.accounts[lease].consumed == l.accounts[lease].consumed
                &&& after.accounts[lease].reserved_out == l.accounts[lease].reserved_out
                &&& forall|other: Seq<char>|
                    other != lease ==> (#[trigger] after.accounts.dom().contains(other)
                        <==> l.accounts.dom().contains(other)) && after.accounts[other]
                        == l.accounts[other]
                &&& after.executions.dom().contains(id) && after.executions[id] == e
                &&& e.id == id && e.lease_id == lease && e.action_id == action && e.held == need
                &&& e.state == ExecutionState::Held && e.idempotency_key == key
                &&& e.created_at_ms == now
                &&& after.exec_reserve_keys.dom().contains(key) && after.exec_reserve_keys[key]
                    == id
                &&& after.reservations == l.reservations
            }
        }),
{
    let a = l.accounts[lease];
    let left = a.balance();
    match left.short_from(need, 0) {
        None => {
            short_none(left, need, 0);
            let b = LeaseAccount { exec_held: a.exec_held.plus(need), ..a };
            assert(l.reserve_execution(id, lease, action, need, key, now).0.accounts[lease] == b);
            assert forall|d: BudgetDimension| #[trigger]
                b.balance().at(d) == left.at(d) - need.at(d) by {
                total_at(a, d);
                assert(need.at(d) <= left.at(d));
                assert(a.exec_held.at(d) + need.at(d) <= u64::MAX);
                assert(b.reserved_out.plus(b.exec_held).at(d) == a.reserved_out.at(d)
                    + a.exec_held.at(d) + need.at(d));
                assert(b.total().at(d) == a.total().at(d) + need.at(d));
            }
        },
        Some(d) => {
            short_some(left, need, 0);
            assert(need.at(d) > left.at(d));
        },
    }
}

/// A debit under a new key draws on what its reservation holds: it is granted
/// exactly if, with what was drawn before, it stays within the hold in every
/// dimension. It is added to what was drawn, and its receipt is kept under its
/// key. No account changes.
pub proof fn debits_draw_on_the_hold(
    l: LedgerView,
    id: Seq<char>,
    actual: Budget,
    key: Seq<char>,
    now: i64,
)
    requires
        !l.debit_keys.dom().contains(key),
        l.reservations.dom().contains(id),
        l.reservations[id].held.covers_all(l.reservations[id].consumed),
    ensures
        ({
            let (after, r) = l.debit(id, actual, key, now);
            let before = l.reservations[id];
            &&& r is Ok <==> before.state == ReservationState::Active && forall|
                d: BudgetDimension,
            | #[trigger]
                actual.at(d) + before.consumed.at(d) <= before.held.at(d)
            &&& r is Err ==> after == l
            &&& r matches Ok(receipt) ==> {
                &&& forall|d: BudgetDimension| #[trigger]
                    after.reservations[id].consumed.at(d) == before.consumed.at(d) + actual.at(d)
                &&& after.reservations[id].held == before.held
                &&& after.reservations[id].state == ReservationState::Active
                &&& after.accounts == l.accounts
                &&& after.debit_keys.dom().contains(key) && after.debit_keys[key] == receipt
                &&& receipt.reservation_id == id && receipt.actual == actual
                &&& receipt.debited_at_ms == now
            }
        }),
{
    let r = l.reservations[id];
    let available = r.held.minus(r.consumed);
    assert forall|d: BudgetDimension| #[trigger]
        available.at(d) == r.held.at(d) - r.consumed.at(d) by {
        assert(r.consumed.at(d) <= r.held.at(d));
    }
    if available.covers_all(actual) {
        assert forall|d: BudgetDimension| #[trigger]
            actual.at(d) + r.consumed.at(d) <= r.held.at(d) by {
            assert(actual.at(d) <= available.at(d));
        }
        assert forall|d: BudgetDimension| #[trigger]
            r.consumed.at(d) + actual.at(d) <= u64::MAX by {
            assert(actual.at(d) <= available.at(d));
        }
    } else {
        let d = choose|d: BudgetDimension| #[trigger] actual.at(d) > available.at(d);
        assert(actual.at(d) + r.consumed.at(d) > r.held.at(d));
    }
}

/// What is spent directly against a lease under a new key comes off its balance,
/// in every dimension, and is granted exactly if the balance covers it. It is
/// booked as consumed, and its receipt is kept under its key.
pub proof fn spending_lowers_the_balance(
    l: LedgerView,
    lease: Seq<char>,
    actual: Budget,
    key: Seq<char>,
    now: i64,
)
    requires
        !l.debit_keys.dom().contains(key),
        l.accounts.dom().contains(lease),
        l.accounts[lease].total_fits(),
    ensures
        ({
            let (after, r) = l.debit_lease(lease, actual, key, now);
            let left = l.accounts[lease].balance();
            &&& r is Ok <==> forall|d: BudgetDimension| #[trigger] actual.at(d) <= left.at(d)
            &&& r is Err ==> after == l
            &&& r matches Ok(receipt) ==> {
                &&& forall|d: BudgetDimension| #[trigger]
                    after.accounts[lease].balance().at(d) == left.at(d) - actual.at(d)
                &&& forall|d: BudgetDimension| #[trigger]
                    after.accounts[lease].consumed.at(d) == l.accounts[lease].consumed.at(d)
                        + actual.at(d)
                &&& forall|other: Seq<char>|
                    other != lease ==> (#[trigger] after.accounts.dom().contains(other)
                        <==> l.accounts.dom().contains(other)) && after.accounts[other]
                        == l.accounts[other]
                &&& after.debit_keys.dom().contains(key) && after.debit_keys[key] == receipt
                &&& receipt.reservation_id == lease && receipt.actual == actual
                &&& receipt.debited_at_ms == now
            }
        }),
{
    let a = l.accounts[lease];
    let left = a.balance();
    if left.covers_all(actual) {
        let b = LeaseAccount { consumed: a.consumed.plus(actual), ..a };
        assert(l.debit_lease(lease, actual, key, now).0.accounts[lease] == b);
        assert forall|d: BudgetDimension|
            #![trigger b.balance().at(d)]
            #![trigger b.consumed.at(d)]
            b.balance().at(d) == left.at(d) - actual.at(d) && b.consumed.at(d) == a.consumed.at(d)
                + actual.at(d) by {
            total_at(a, d);
            assert(actual.at(d) <= left.at(d));
            assert(b.total().at(d) == a.total().at(d) + actual.at(d));
        }
    } else {
        let d = choose|d: BudgetDimension| #[trigger] actual.at(d) > left.at(d);
        assert(!(actual.at(d) <= left.at(d)));
    }
}

/// Settling a held execution under a new key frees what was held for it and
/// books what it used, whether less or more, and the execution says so.
pub proof fn settling_books_what_was_used(
    l: LedgerView,
    id: Seq<char>,
    actual: Budget,
    key: Seq<char>,
    now: i64,
)
    requires
        !l.exec_settle_keys.dom().contains(key),
        l.executions.dom().contains(id),
        l.executions[id].state == ExecutionState::Held,
        l.accounts.dom().contains(l.executions[id].lease_id),
        l.accounts[l.executions[id].lease_id].exec_held.covers_all(l.executions[id].held),
        l.accounts[l.executions[id].lease_id].consumed.sum_fits(actual),
    ensures
        ({
            let (after, r) = l.settle_execution(id, actual, key, now);
            let lease = l.executions[id].lease_id;
            &&& r matches Ok(receipt) && receipt.reservation_id == id && receipt.actual == actual
                && receipt.debited_at_ms == now && after.exec_settle_keys.dom().contains(key)
                && after.exec_settle_keys[key] == receipt
            &&& after.executions[id].state == ExecutionState::Settled
            &&& after.executions[id].actual == Some(actual)
            &&& after.executions[id].completed_at_ms == Some(now)
            &&& forall|d: BudgetDimension| #[trigger]
                after.accounts[lease].exec_held.at(d) == l.accounts[lease].exec_held.at(d)
                    - l.executions[id].held.at(d)
            &&& forall|d: BudgetDimension| #[trigger]
                after.accounts[lease].consumed.at(d) == l.accounts[lease].consumed.at(d)
                    + actual.at(d)
            &&& after.accounts[lease].caps == l.accounts[lease].caps
            &&& after.accounts[lease].reserved_out == l.accounts[lease].reserved_out
            &&& forall|other: Seq<char>|
                other != lease ==> (#[trigger] after.accounts.dom().contains(other)
                    <==> l.accounts.dom().contains(other)) && after.accounts[other]
                    == l.accounts[other]
        }),
{
    let lease = l.executions[id].lease_id;
    let a = l.accounts[lease];
    let held = l.executions[id].held;
    let b = l.settle_execution(id, actual, key, now).0.accounts[lease];
    assert(b == (LeaseAccount {
        exec_held: a.exec_held.minus(held),
        consumed: a.consumed.plus(actual),
        ..a
    }));
    assert forall|d: BudgetDimension| #[trigger]
        b.exec_held.at(d) == a.exec_held.at(d) - held.at(d) by {
        assert(held.at(d) <= a.exec_held.at(d));
    }
    assert forall|d: BudgetDimension| #[trigger]
        b.consumed.at(d) == a.consumed.at(d) + actual.at(d) by {
        assert(a.consumed.at(d) + actual.at(d) <= u64::MAX);
    }
}

/// Releasing an active reservation takes its hold off the parent's books, and
/// puts there what was drawn on it and what the child spent or still holds for
/// its executions. What is left of the hold is returned, and the reservation is
/// over.
pub proof fn releasing_settles_with_the_parent(l: LedgerView, id: Seq<char>, now: i64)
    requires
        l.reservations.dom().contains(id),
        l.release(id, now).1 is Ok,
        l.accounts[l.reservations[id].parent_lease_id].reserved_out.covers_all(
            l.reservations[id].held,
        ),
    ensures
        ({
            let (after, r) = l.release(id, now);
            let hold = l.reservations[id];
            let parent = hold.parent_lease_id;
            let child = hold.child_lease_id;
            &&& hold.state == ReservationState::Active
            &&& after.reservations[id].state == ReservationState::Released
            &&& after.reservations[id].released_at_ms == Some(now)
            &&& forall|d: BudgetDimension| #[trigger]
                after.accounts[parent].reserved_out.at(d) == l.accounts[parent].reserved_out.at(d)
                    - hold.held.at(d)
            &&& forall|d: BudgetDimension| #[trigger]
                after.accounts[parent].consumed.at(d) == l.accounts[parent].consumed.at(d)
                    + hold.consumed.at(d) + (if l.accounts.dom().contains(child) {
                    l.accounts[child].consumed.at(d) + l.accounts[child].exec_held.at(d)
                } else {
                    0
                })
            &&& forall|d: BudgetDimension|
                #![trigger r->Ok_0.at(d)]
                ({
                    let used = hold.consumed.at(d) + (if l.accounts.dom().contains(child) {
                        l.accounts[child].consumed.at(d) + l.accounts[child].exec_held.at(d)
                    } else {
                        0
                    });
                    r->Ok_0.at(d) == if used <= hold.held.at(d) {
                        hold.held.at(d) - used
                    } else {
                        0
                    }
                })
            &&& after.accounts[parent].caps == l.accounts[parent].caps
            &&& after.accounts[parent].exec_held == l.accounts[parent].exec_held
        }),
{
    let hold = l.reservations[id];
    let parent = hold.parent_lease_id;
    let child = hold.child_lease_id;
    let a = l.accounts[parent];
    let spent = l.child_spend(hold)->0;
    assert forall|d: BudgetDimension|
        #![trigger spent.at(d)]
        spent.at(d) == hold.consumed.at(d) + (if l.accounts.dom().contains(child) {
            l.accounts[child].consumed.at(d) + l.accounts[child].exec_held.at(d)
        } else {
            0
        }) by {
        if l.accounts.dom().contains(child) {
            let c = l.accounts[child];
            assert(hold.consumed.at(d) + c.consumed.at(d) <= u64::MAX);
            assert(hold.consumed.plus(c.consumed).at(d) + c.exec_held.at(d) <= u64::MAX);
        }
    }
    let b = l.release(id, now).0.accounts[parent];
    assert(b == (LeaseAccount {
        reserved_out: a.reserved_out.minus(hold.held),
        consumed: a.consumed.plus(spent),
        ..a
    }));
    assert forall|d: BudgetDimension| #[trigger]
        b.reserved_out.at(d) == a.reserved_out.at(d) - hold.held.at(d) by {
        assert(hold.held.at(d) <= a.reserved_out.at(d));
    }
    assert forall|d: BudgetDimension| #[trigger]
        b.consumed.at(d) == a.consumed.at(d) + hold.consumed.at(d) + (if l.accounts.dom().contains(
        child,
    ) {
        l.accounts[child].consumed.at(d) + l.accounts[child].exec_held.at(d)
    } else {
        0
    }) by {
        assert(a.consumed.at(d) + spent.at(d) <= u64::MAX);
    }
    assert forall|d: BudgetDimension|
        #![trigger l.release(id, now).1->Ok_0.at(d)]
        l.release(id, now).1->Ok_0.at(d) == (if spent.at(d) <= hold.held.at(d) {
            hold.held.at(d) - spent.at(d)
        } else {
            0
        }) by {
        assert(l.release(id, now).1->Ok_0 == hold.held.minus(spent));
    }
}

/// A reservation that is taken up again after a restart is on the books as it
/// stood: the parent's hold grows by it, in every dimension, and it is known
/// under its identity.
pub proof fn rehydration_restores_the_hold(l: LedgerView, r: ReservationView)
    requires
        !l.reservations.dom().contains(r.id),
    ensures
        ({
            let (after, outcome) = l.rehydrate(r);
            &&& outcome is Ok <==> r.state == ReservationState::Active && l.accounts.dom().contains(
                r.parent_lease_id,
            ) && forall|d: BudgetDimension| #[trigger]
                l.accounts[r.parent_lease_id].reserved_out.at(d) + r.held.at(d) <= u64::MAX
            &&& outcome is Err ==> after == l
            &&& outcome is Ok ==> {
                &&& after.reservations.dom().contains(r.id) && after.reservations[r.id] == r
                &&& forall|d: BudgetDimension| #[trigger]
                    after.accounts[r.parent_lease_id].reserved_out.at(d)
                        == l.accounts[r.parent_lease_id].reserved_out.at(d) + r.held.at(d)
                &&& after.accounts[r.parent_lease_id].consumed
                    == l.accounts[r.parent_lease_id].consumed
                &&& after.accounts[r.parent_lease_id].exec_held
                    == l.accounts[r.parent_lease_id].exec_held
            }
        }),
{
    if l.rehydrate(r).1 is Ok {
        let a = l.accounts[r.parent_lease_id];
        let b = l.rehydrate(r).0.accounts[r.parent_lease_id];
        assert forall|d: BudgetDimension| #[trigger]
            b.reserved_out.at(d) == a.reserved_out.at(d) + r.held.at(d) by {
            assert(a.reserved_out.at(d) + r.held.at(d) <= u64::MAX);
        }
    }
}

} // verus!
