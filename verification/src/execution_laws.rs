//! What a whole boot reconciliation does, and that it can be run again.

use crate::boot::{
    boot_start, groups_of, leases_of, resumed, rows_of, take_lease, take_leases, take_rows,
    BootAtView, BootEventView, BootRunView, GroupView,
};
use crate::budget::{
    budget_of_at, Budget, BudgetDimension, ExecutionState, ExecutionView, LedgerView,
    ReservationView,
};
use crate::execution::{
    boot_end_step, boot_finish_steps, boot_key, boot_lease_step, boot_reservation_step, boot_row, charged,
    ensure_account, held_rows, reapply_settled, report_missing_caps, BootRowView, ReportView,
};
use vstd::prelude::*;

verus! {

/// An active reservation in the store, and the recorded caps of its parent.
pub type FoundReservation = (ReservationView, Option<Budget>);

/// One lease in the store: its executions and its recorded caps, the rows that
/// end its held executions, and what came of writing each.
pub struct FoundLease {
    pub lease: Seq<char>,
    pub rows: Seq<ExecutionView>,
    pub caps: Option<Budget>,
    pub ends: Seq<BootRowView>,
    pub wrote: Seq<Result<(), Seq<char>>>,
}

/// Restores the reservations in order.
pub open spec fn boot_reservations(
    l: LedgerView,
    report: ReportView,
    found: Seq<FoundReservation>,
) -> (LedgerView, ReportView)
    decreases found.len(),
{
    if found.len() == 0 {
        (l, report)
    } else {
        let (l1, report1) = boot_reservations(l, report, found.drop_last());
        boot_reservation_step(l1, report1, found.last().0, found.last().1)
    }
}

/// Reconciles one lease: its account, its settled rows, and then its held
/// ones.
pub open spec fn boot_lease_run(l: LedgerView, report: ReportView, g: FoundLease, now: i64) -> (
    LedgerView,
    ReportView,
) {
    let (l1, report1, go_on) = boot_lease_step(l, report, g.lease, g.rows, g.caps, now);
    if go_on {
        boot_finish_steps(l1, report1, g.lease, g.ends, g.wrote, now)
    } else {
        (l1, report1)
    }
}

/// Reconciles the leases in order.
pub open spec fn boot_leases(
    l: LedgerView,
    report: ReportView,
    found: Seq<FoundLease>,
    now: i64,
) -> (LedgerView, ReportView)
    decreases found.len(),
{
    if found.len() == 0 {
        (l, report)
    } else {
        let (l1, report1) = boot_leases(l, report, found.drop_last(), now);
        boot_lease_run(l1, report1, found.last(), now)
    }
}

/// A whole reconciliation: the reservations first, so that the parents' holds
/// are back before anything is charged, and then the leases.
pub open spec fn reconciled(
    l: LedgerView,
    reservations: Seq<FoundReservation>,
    leases: Seq<FoundLease>,
    now: i64,
) -> (LedgerView, ReportView) {
    let (l1, report1) = boot_reservations(l, ReportView::empty(), reservations);
    boot_leases(l1, report1, leases, now)
}

/// Every held execution of the lease has its row, and every row was written.
pub open spec fn all_written(g: FoundLease, now: i64) -> bool {
    let held = held_rows(g.rows);
    &&& g.ends.len() == held.len()
    &&& g.wrote.len() == held.len()
    &&& forall|i: int|
        #![trigger g.ends[i]]
        0 <= i < held.len() ==> g.ends[i] == boot_row(held[i], g.ends[i].completed, now)
    &&& forall|i: int| #![trigger g.wrote[i]] 0 <= i < held.len() ==> g.wrote[i] is Ok
}

/// The executions of a lease after the rows in `ends` were written in place of
/// the held ones.
pub open spec fn rows_after(rows: Seq<ExecutionView>, ends: Seq<BootRowView>) -> Seq<ExecutionView>
    decreases rows.len(),
{
    if rows.len() == 0 {
        Seq::empty()
    } else if rows.last().state == ExecutionState::Held && ends.len() > 0 {
        rows_after(rows.drop_last(), ends.drop_last()).push(ends.last().row)
    } else {
        rows_after(rows.drop_last(), ends).push(rows.last())
    }
}

/// The lease as the next boot finds it.
pub open spec fn found_again(g: FoundLease) -> FoundLease {
    FoundLease {
        lease: g.lease,
        rows: rows_after(g.rows, g.ends),
        caps: g.caps,
        ends: Seq::empty(),
        wrote: Seq::empty(),
    }
}

/// `after` has the accounts, the reservations and the receipts of `before`.
spec fn keeps(before: LedgerView, after: LedgerView) -> bool {
    &&& forall|k: Seq<char>| #[trigger]
        before.accounts.dom().contains(k) ==> after.accounts.dom().contains(k)
    &&& forall|k: Seq<char>| #[trigger]
        before.reservations.dom().contains(k) ==> after.reservations.dom().contains(k)
    &&& forall|k: Seq<char>| #[trigger]
        before.debit_keys.dom().contains(k) ==> after.debit_keys.dom().contains(k)
            && after.debit_keys[k] == before.debit_keys[k]
}

/// The settled row has its receipt.
spec fn receipted(l: LedgerView, lease: Seq<char>, row: ExecutionView) -> bool {
    &&& l.debit_keys.dom().contains(boot_key(row.id))
    &&& l.debit_keys[boot_key(row.id)].actual == charged(row)
    &&& l.debit_keys[boot_key(row.id)].reservation_id == lease
}

/// Nothing of the reservation is left to restore.
spec fn restored(l: LedgerView, f: FoundReservation) -> bool {
    &&& f.1 is Some
    &&& l.accounts.dom().contains(f.0.parent_lease_id)
    &&& l.accounts.dom().contains(f.0.child_lease_id)
    &&& l.reservations.dom().contains(f.0.id)
}

/// Nothing of the lease is left to reconcile.
spec fn settled_up(l: LedgerView, lease: Seq<char>, rows: Seq<ExecutionView>) -> bool {
    &&& l.accounts.dom().contains(lease)
    &&& forall|i: int|
        #![trigger rows[i]]
        0 <= i < rows.len() ==> rows[i].state != ExecutionState::Held && (rows[i].state
            == ExecutionState::Settled ==> receipted(l, lease, rows[i]))
}

proof fn kept_is_settled_up(
    l: LedgerView,
    l2: LedgerView,
    lease: Seq<char>,
    rows: Seq<ExecutionView>,
)
    requires
        keeps(l, l2),
        settled_up(l, lease, rows),
    ensures
        settled_up(l2, lease, rows),
{
    assert forall|i: int|
        #![trigger rows[i]]
        0 <= i < rows.len() && rows[i].state == ExecutionState::Settled implies receipted(
        l2,
        lease,
        rows[i],
    ) by {
        assert(l.debit_keys.dom().contains(boot_key(rows[i].id)));
    }
}

proof fn reservation_step_keeps(l: LedgerView, report: ReportView, f: FoundReservation)
    ensures
        ({
            let (l2, report2) = boot_reservation_step(l, report, f.0, f.1);
            &&& keeps(l, l2)
            &&& report2.errors.len() >= report.errors.len()
            &&& report2.errors.len() == report.errors.len() ==> restored(l2, f)
        }),
{
    if let Some(caps) = f.1 {
        let (l1, n1) = ensure_account(l, f.0.parent_lease_id, caps);
        let (l2, n2) = ensure_account(l1, f.0.child_lease_id, f.0.held);
        assert(keeps(l, l2));
        let l3 = l2.rehydrate(f.0).0;
        assert(keeps(l2, l3));
    }
}

proof fn reservations_are_restored(
    l: LedgerView,
    report: ReportView,
    found: Seq<FoundReservation>,
)
    ensures
        ({
            let (l2, report2) = boot_reservations(l, report, found);
            &&& keeps(l, l2)
            &&& report2.errors.len() >= report.errors.len()
            &&& report2.errors.len() == report.errors.len() ==> forall|i: int|
                #![trigger found[i]]
                0 <= i < found.len() ==> restored(l2, found[i])
        }),
    decreases found.len(),
{
    if found.len() > 0 {
        let rest = found.drop_last();
        reservations_are_restored(l, report, rest);
        let (l1, report1) = boot_reservations(l, report, rest);
        reservation_step_keeps(l1, report1, found.last());
        let (l2, report2) = boot_reservations(l, report, found);
        if report2.errors.len() == report.errors.len() {
            assert forall|i: int|
                #![trigger found[i]]
                0 <= i < found.len() implies restored(l2, found[i]) by {
                if i < rest.len() {
                    assert(restored(l1, rest[i]));
                }
            }
        }
    }
}

proof fn reapply_charges(
    l: LedgerView,
    report: ReportView,
    lease: Seq<char>,
    rows: Seq<ExecutionView>,
    now: i64,
)
    ensures
        ({
            let (l2, report2) = reapply_settled(l, report, lease, rows, now);
            &&& keeps(l, l2)
            &&& report2.errors.len() >= report.errors.len()
            &&& report2.errors.len() == report.errors.len() ==> forall|i: int|
                #![trigger rows[i]]
                0 <= i < rows.len() && rows[i].state == ExecutionState::Settled ==> receipted(
                    l2,
                    lease,
                    rows[i],
                )
        }),
    decreases rows.len(),
{
    if rows.len() > 0 {
        let rest = rows.drop_last();
        reapply_charges(l, report, lease, rest, now);
        let (l1, report1) = reapply_settled(l, report, lease, rest, now);
        let (l2, report2) = reapply_settled(l, report, lease, rows, now);
        assert(keeps(l1, l2));
        if report2.errors.len() == report.errors.len() {
            assert forall|i: int|
                #![trigger rows[i]]
                0 <= i < rows.len() && rows[i].state
                    == ExecutionState::Settled implies receipted(l2, lease, rows[i]) by {
                if i < rest.len() {
                    assert(receipted(l1, lease, rest[i]));
                    assert(l1.debit_keys.dom().contains(boot_key(rest[i].id)));
                }
            }
        }
    }
}

proof fn missing_caps_are_errors(report: ReportView, lease: Seq<char>, rows: Seq<ExecutionView>)
    ensures
        report_missing_caps(report, lease, rows).errors.len() == report.errors.len() + rows.len(),
    decreases rows.len(),
{
    if rows.len() > 0 {
        missing_caps_are_errors(report, lease, rows.drop_last());
    }
}

proof fn finish_charges(
    l: LedgerView,
    report: ReportView,
    lease: Seq<char>,
    ends: Seq<BootRowView>,
    wrote: Seq<Result<(), Seq<char>>>,
    now: i64,
)
    requires
        ends.len() == wrote.len(),
    ensures
        ({
            let (l2, report2) = boot_finish_steps(l, report, lease, ends, wrote, now);
            &&& keeps(l, l2)
            &&& report2.errors.len() >= report.errors.len()
            &&& report2.errors.len() == report.errors.len() ==> forall|i: int|
                #![trigger ends[i]]
                0 <= i < ends.len() && ends[i].completed ==> {
                    &&& l2.debit_keys.dom().contains(boot_key(ends[i].id))
                    &&& l2.debit_keys[boot_key(ends[i].id)].actual == ends[i].held
                    &&& l2.debit_keys[boot_key(ends[i].id)].reservation_id == lease
                }
        }),
    decreases ends.len(),
{
    if ends.len() > 0 {
        let rest = ends.drop_last();
        let wrote1 = wrote.drop_last();
        finish_charges(l, report, lease, rest, wrote1, now);
        let (l1, report1) = boot_finish_steps(l, report, lease, rest, wrote1, now);
        let (l2, report2) = boot_finish_steps(l, report, lease, ends, wrote, now);
        assert(keeps(l1, l2));
        if report2.errors.len() == report.errors.len() {
            assert forall|i: int|
                #![trigger ends[i]]
                0 <= i < ends.len() && ends[i].completed implies {
                &&& l2.debit_keys.dom().contains(boot_key(ends[i].id))
                &&& l2.debit_keys[boot_key(ends[i].id)].actual == ends[i].held
                &&& l2.debit_keys[boot_key(ends[i].id)].reservation_id == lease
            } by {
                if i < rest.len() {
                    assert(rest[i].completed);
                    assert(l1.debit_keys.dom().contains(boot_key(rest[i].id)));
                }
            }
        }
    }
}

/// After its boot a lease has no held row, and each settled one is as it was
/// or is a completed end.
proof fn rows_after_are_ended(
    rows: Seq<ExecutionView>,
    ends: Seq<BootRowView>,
    now: i64,
    l: LedgerView,
    lease: Seq<char>,
)
    requires
        ends.len() == held_rows(rows).len(),
        forall|i: int|
            #![trigger ends[i]]
            0 <= i < ends.len() ==> ends[i] == boot_row(held_rows(rows)[i], ends[i].completed, now),
        forall|i: int|
            #![trigger rows[i]]
            0 <= i < rows.len() && rows[i].state == ExecutionState::Settled ==> receipted(
                l,
                lease,
                rows[i],
            ),
        forall|i: int|
            #![trigger ends[i]]
            0 <= i < ends.len() && ends[i].completed ==> {
                &&& l.debit_keys.dom().contains(boot_key(ends[i].id))
                &&& l.debit_keys[boot_key(ends[i].id)].actual == ends[i].held
                &&& l.debit_keys[boot_key(ends[i].id)].reservation_id == lease
            },
    ensures
        rows_after(rows, ends).len() == rows.len(),
        forall|i: int|
            #![trigger rows_after(rows, ends)[i]]
            0 <= i < rows.len() ==> {
                let r = rows_after(rows, ends)[i];
                &&& r.state != ExecutionState::Held
                &&& r.state == ExecutionState::Settled ==> receipted(l, lease, r)
            },
    decreases rows.len(),
{
    if rows.len() > 0 {
        let rest = rows.drop_last();
        let held = held_rows(rows);
        let all = rows_after(rows, ends);
        assert forall|i: int|
            #![trigger rest[i]]
            0 <= i < rest.len() && rest[i].state == ExecutionState::Settled implies receipted(
            l,
            lease,
            rest[i],
        ) by {
            assert(rest[i] == rows[i]);
        }
        assert(rows[rows.len() - 1] == rows.last());
        if rows.last().state == ExecutionState::Held {
            assert(held == held_rows(rest).push(rows.last()));
            let ends1 = ends.drop_last();
            assert forall|i: int|
                #![trigger ends1[i]]
                0 <= i < ends1.len() implies ends1[i] == boot_row(
                held_rows(rest)[i],
                ends1[i].completed,
                now,
            ) && (ends1[i].completed ==> {
                &&& l.debit_keys.dom().contains(boot_key(ends1[i].id))
                &&& l.debit_keys[boot_key(ends1[i].id)].actual == ends1[i].held
                &&& l.debit_keys[boot_key(ends1[i].id)].reservation_id == lease
            }) by {
                assert(ends[i] == ends1[i]);
                assert(held[i] == held_rows(rest)[i]);
            }
            rows_after_are_ended(rest, ends1, now, l, lease);
            let last = ends[ends.len() - 1];
            assert(last == boot_row(rows.last(), last.completed, now));
            assert forall|i: int|
                #![trigger all[i]]
                0 <= i < rows.len() implies all[i].state != ExecutionState::Held && (all[i].state
                == ExecutionState::Settled ==> receipted(l, lease, all[i])) by {
                if i < rest.len() {
                    assert(all[i] == rows_after(rest, ends1)[i]);
                }
            }
        } else {
            rows_after_are_ended(rest, ends, now, l, lease);
            assert forall|i: int|
                #![trigger all[i]]
                0 <= i < rows.len() implies all[i].state != ExecutionState::Held && (all[i].state
                == ExecutionState::Settled ==> receipted(l, lease, all[i])) by {
                if i < rest.len() {
                    assert(all[i] == rows_after(rest, ends)[i]);
                }
            }
        }
    }
}

proof fn lease_run_settles_up(l: LedgerView, report: ReportView, g: FoundLease, now: i64)
    requires
        all_written(g, now),
        g.rows.len() > 0,
    ensures
        ({
            let (l2, report2) = boot_lease_run(l, report, g, now);
            &&& keeps(l, l2)
            &&& report2.errors.len() >= report.errors.len()
            &&& report2.errors.len() == report.errors.len() ==> settled_up(
                l2,
                g.lease,
                rows_after(g.rows, g.ends),
            )
        }),
{
    let (l1, report1, go_on) = boot_lease_step(l, report, g.lease, g.rows, g.caps, now);
    if l.accounts.dom().contains(g.lease) {
        reapply_charges(l, report, g.lease, g.rows, now);
    } else if let Some(caps) = g.caps {
        let (l0, n) = ensure_account(l, g.lease, caps);
        assert(keeps(l, l0));
        reapply_charges(l0, report.with_leases(n), g.lease, g.rows, now);
        assert(l0.accounts.dom().contains(g.lease));
        assert(l1.accounts.dom().contains(g.lease));
    } else {
        missing_caps_are_errors(report, g.lease, g.rows);
    }
    if go_on {
        finish_charges(l1, report1, g.lease, g.ends, g.wrote, now);
        let (l2, report2) = boot_lease_run(l, report, g, now);
        if report2.errors.len() == report.errors.len() {
            assert forall|i: int|
                #![trigger g.rows[i]]
                0 <= i < g.rows.len() && g.rows[i].state
                    == ExecutionState::Settled implies receipted(l2, g.lease, g.rows[i]) by {
                assert(receipted(l1, g.lease, g.rows[i]));
                assert(l1.debit_keys.dom().contains(boot_key(g.rows[i].id)));
            }
            rows_after_are_ended(g.rows, g.ends, now, l2, g.lease);
            assert(l1.accounts.dom().contains(g.lease));
            let all = rows_after(g.rows, g.ends);
            assert forall|i: int|
                #![trigger all[i]]
                0 <= i < all.len() implies all[i].state != ExecutionState::Held && (all[i].state
                == ExecutionState::Settled ==> receipted(l2, g.lease, all[i])) by {
                assert(rows_after(g.rows, g.ends)[i] == all[i]);
            }
            assert(settled_up(l2, g.lease, all));
        }
        assert(keeps(l, l1));
        assert(keeps(l, l2));
    }
}

proof fn leases_are_settled_up(
    l: LedgerView,
    report: ReportView,
    found: Seq<FoundLease>,
    now: i64,
)
    requires
        forall|i: int|
            #![trigger found[i]]
            0 <= i < found.len() ==> all_written(found[i], now) && found[i].rows.len() > 0,
    ensures
        ({
            let (l2, report2) = boot_leases(l, report, found, now);
            &&& keeps(l, l2)
            &&& report2.errors.len() >= report.errors.len()
            &&& report2.errors.len() == report.errors.len() ==> forall|i: int|
                #![trigger found[i]]
                0 <= i < found.len() ==> settled_up(
                    l2,
                    found[i].lease,
                    rows_after(found[i].rows, found[i].ends),
                )
        }),
    decreases found.len(),
{
    if found.len() > 0 {
        let rest = found.drop_last();
        assert forall|i: int|
            #![trigger rest[i]]
            0 <= i < rest.len() implies all_written(rest[i], now) && rest[i].rows.len() > 0 by {
            assert(rest[i] == found[i]);
        }
        leases_are_settled_up(l, report, rest, now);
        let (l1, report1) = boot_leases(l, report, rest, now);
        assert(found[found.len() - 1] == found.last());
        lease_run_settles_up(l1, report1, found.last(), now);
        let (l2, report2) = boot_leases(l, report, found, now);
        if report2.errors.len() == report.errors.len() {
            assert forall|i: int|
                #![trigger found[i]]
                0 <= i < found.len() implies settled_up(
                l2,
                found[i].lease,
                rows_after(found[i].rows, found[i].ends),
            ) by {
                if i < rest.len() {
                    assert(rest[i] == found[i]);
                    kept_is_settled_up(
                        l1,
                        l2,
                        found[i].lease,
                        rows_after(found[i].rows, found[i].ends),
                    );
                }
            }
        }
    }
}

proof fn restored_again(l: LedgerView, report: ReportView, found: Seq<FoundReservation>)
    requires
        forall|i: int| #![trigger found[i]] 0 <= i < found.len() ==> restored(l, found[i]),
    ensures
        boot_reservations(l, report, found) == (l, report),
    decreases found.len(),
{
    if found.len() > 0 {
        let rest = found.drop_last();
        assert forall|i: int| #![trigger rest[i]] 0 <= i < rest.len() implies restored(
            l,
            rest[i],
        ) by {
            assert(rest[i] == found[i]);
        }
        restored_again(l, report, rest);
        assert(restored(l, found[found.len() - 1]));
        assert(report.with_leases(0).with_leases(0) =~= report);
    }
}

proof fn nothing_held(rows: Seq<ExecutionView>)
    requires
        forall|i: int|
            #![trigger rows[i]]
            0 <= i < rows.len() ==> rows[i].state != ExecutionState::Held,
    ensures
        held_rows(rows).len() == 0,
    decreases rows.len(),
{
    if rows.len() > 0 {
        let rest = rows.drop_last();
        assert forall|i: int| #![trigger rest[i]] 0 <= i < rest.len() implies rest[i].state
            != ExecutionState::Held by {
            assert(rest[i] == rows[i]);
        }
        nothing_held(rest);
        assert(rows[rows.len() - 1] == rows.last());
    }
}

proof fn reapplied_again(
    l: LedgerView,
    report: ReportView,
    lease: Seq<char>,
    rows: Seq<ExecutionView>,
    now: i64,
)
    requires
        settled_up(l, lease, rows),
    ensures
        reapply_settled(l, report, lease, rows, now) == (l, report),
    decreases rows.len(),
{
    if rows.len() > 0 {
        let rest = rows.drop_last();
        assert forall|i: int|
            #![trigger rest[i]]
            0 <= i < rest.len() implies rest[i].state != ExecutionState::Held && (rest[i].state
            == ExecutionState::Settled ==> receipted(l, lease, rest[i])) by {
            assert(rest[i] == rows[i]);
        }
        reapplied_again(l, report, lease, rest, now);
        assert(rows[rows.len() - 1] == rows.last());
    }
}

proof fn reconciled_again(l: LedgerView, report: ReportView, found: Seq<FoundLease>, now: i64)
    requires
        forall|i: int|
            #![trigger found[i]]
            0 <= i < found.len() ==> settled_up(l, found[i].lease, found[i].rows)
                && found[i].ends.len() == 0 && found[i].wrote.len() == 0,
    ensures
        boot_leases(l, report, found, now) == (l, report),
    decreases found.len(),
{
    if found.len() > 0 {
        let rest = found.drop_last();
        assert forall|i: int|
            #![trigger rest[i]]
            0 <= i < rest.len() implies settled_up(l, rest[i].lease, rest[i].rows)
            && rest[i].ends.len() == 0 && rest[i].wrote.len() == 0 by {
            assert(rest[i] == found[i]);
        }
        reconciled_again(l, report, rest, now);
        let g = found[found.len() - 1];
        reapplied_again(l, report, g.lease, g.rows, now);
    }
}

/// A reconciliation that reported no error can be run again on the same ledger
/// and the store as it left it: nothing is held any more, nothing is charged
/// or counted twice, and the report is empty.
pub proof fn reconciling_again_changes_nothing(
    l: LedgerView,
    reservations: Seq<FoundReservation>,
    leases: Seq<FoundLease>,
    now: i64,
    later: i64,
)
    requires
        forall|i: int|
            #![trigger leases[i]]
            0 <= i < leases.len() ==> all_written(leases[i], now) && leases[i].rows.len() > 0,
        reconciled(l, reservations, leases, now).1.errors.len() == 0,
    ensures
        ({
            let l2 = reconciled(l, reservations, leases, now).0;
            let again = leases.map_values(|g: FoundLease| found_again(g));
            &&& reconciled(l2, reservations, again, later) == (l2, ReportView::empty())
            &&& forall|i: int|
                #![trigger again[i]]
                0 <= i < again.len() ==> held_rows(again[i].rows).len() == 0
        }),
{
    let (l1, report1) = boot_reservations(l, ReportView::empty(), reservations);
    reservations_are_restored(l, ReportView::empty(), reservations);
    leases_are_settled_up(l1, report1, leases, now);
    let l2 = reconciled(l, reservations, leases, now).0;
    let again = leases.map_values(|g: FoundLease| found_again(g));
    assert forall|i: int| #![trigger reservations[i]] 0 <= i < reservations.len() implies restored(
        l2,
        reservations[i],
    ) by {
        assert(restored(l1, reservations[i]));
    }
    restored_again(l2, ReportView::empty(), reservations);
    assert forall|i: int|
        #![trigger again[i]]
        0 <= i < again.len() implies settled_up(l2, again[i].lease, again[i].rows)
        && again[i].ends.len() == 0 && again[i].wrote.len() == 0 && held_rows(
        again[i].rows,
    ).len() == 0 by {
        assert(leases[i].rows.len() > 0);
        nothing_held(again[i].rows);
    }
    reconciled_again(l2, ReportView::empty(), again, later);
}

/// What the settled ones among `rows` spent in one dimension.
pub open spec fn spent(rows: Seq<ExecutionView>, d: BudgetDimension) -> int
    decreases rows.len(),
{
    if rows.len() == 0 {
        0
    } else {
        spent(rows.drop_last(), d) + if rows.last().state == ExecutionState::Settled {
            charged(rows.last()).at(d) as int
        } else {
            0
        }
    }
}

proof fn boot_key_is_injective(a: Seq<char>, b: Seq<char>)
    requires
        boot_key(a) == boot_key(b),
    ensures
        a == b,
{
    let n = "boot:"@.len() as int;
    assert(boot_key(a).skip(n) =~= a);
    assert(boot_key(b).skip(n) =~= b);
}

/// A crash never resurrects spent budget: a boot records all that the settled
/// executions of a lease spent, whatever its caps. Each is recorded once, and
/// none is refused, unless a counter is full.
pub proof fn boots_record_all_spend(
    l: LedgerView,
    report: ReportView,
    lease: Seq<char>,
    rows: Seq<ExecutionView>,
    now: i64,
)
    requires
        l.accounts.dom().contains(lease),
        forall|i: int, j: int|
            #![trigger rows[i], rows[j]]
            0 <= i < j < rows.len() ==> rows[i].id != rows[j].id,
        forall|i: int|
            #![trigger rows[i]]
            0 <= i < rows.len() ==> !l.debit_keys.dom().contains(boot_key(rows[i].id)),
        forall|d: BudgetDimension|
            #![trigger l.accounts[lease].consumed.at(d)]
            l.accounts[lease].consumed.at(d) + spent(rows, d) <= u64::MAX,
    ensures
        ({
            let (l2, report2) = reapply_settled(l, report, lease, rows, now);
            &&& report2 == report
            &&& l2.accounts.dom().contains(lease)
            &&& l2.accounts[lease].caps == l.accounts[lease].caps
            &&& forall|d: BudgetDimension| #[trigger]
                l2.accounts[lease].consumed.at(d) == l.accounts[lease].consumed.at(d) + spent(
                    rows,
                    d,
                )
            &&& forall|k: Seq<char>| #[trigger]
                l2.debit_keys.dom().contains(k) ==> l.debit_keys.dom().contains(k) || exists|i: int|
                    0 <= i < rows.len() && k == boot_key((#[trigger] rows[i]).id)
        }),
    decreases rows.len(),
{
    broadcast use budget_of_at;

    if rows.len() > 0 {
        let rest = rows.drop_last();
        let row = rows.last();
        let a = l.accounts[lease];
        assert forall|d: BudgetDimension|
            #![trigger a.consumed.at(d)]
            a.consumed.at(d) + spent(rest, d) <= u64::MAX by {
            assert(a.consumed.at(d) + spent(rows, d) <= u64::MAX);
        }
        assert forall|i: int, j: int|
            #![trigger rest[i], rest[j]]
            0 <= i < j < rest.len() implies rest[i].id != rest[j].id by {
            assert(rows[i].id != rows[j].id);
        }
        assert forall|i: int|
            #![trigger rest[i]]
            0 <= i < rest.len() implies !l.debit_keys.dom().contains(boot_key(rest[i].id)) by {
            assert(rest[i] == rows[i]);
        }
        boots_record_all_spend(l, report, lease, rest, now);
        let (l1, report1) = reapply_settled(l, report, lease, rest, now);
        let (l2, report2) = reapply_settled(l, report, lease, rows, now);
        assert(rows[rows.len() - 1] == row);
        if row.state == ExecutionState::Settled {
            let key = boot_key(row.id);
            if l1.debit_keys.dom().contains(key) {
                let i = choose|i: int| 0 <= i < rest.len() && key == boot_key((#[trigger] rest[i]).id);
                boot_key_is_injective(row.id, rest[i].id);
                assert(rows[i].id != rows[rows.len() - 1].id);
            }
            let c = l1.accounts[lease].consumed;
            assert forall|d: BudgetDimension| #[trigger] c.at(d) + charged(row).at(d)
                <= u64::MAX by {
                assert(a.consumed.at(d) + spent(rows, d) <= u64::MAX);
            }
            assert(c.sum_fits(charged(row)));
        }
        assert forall|k: Seq<char>| #[trigger]
            l2.debit_keys.dom().contains(k) implies l.debit_keys.dom().contains(k) || exists|i: int|
            0 <= i < rows.len() && k == boot_key((#[trigger] rows[i]).id) by {
            if l1.debit_keys.dom().contains(k) && !l.debit_keys.dom().contains(k) {
                let i = choose|i: int| 0 <= i < rest.len() && k == boot_key((#[trigger] rest[i]).id);
                assert(rows[i] == rest[i]);
            } else if !l1.debit_keys.dom().contains(k) {
                assert(k == boot_key(rows[rows.len() - 1].id));
            }
        }
    }
}

/// A held execution whose action completed is charged at its estimate, whatever
/// is left, and reported as settled.
pub proof fn completed_executions_are_charged(
    l: LedgerView,
    report: ReportView,
    lease: Seq<char>,
    e: ExecutionView,
    now: i64,
    d: BudgetDimension,
)
    requires
        l.accounts.dom().contains(lease),
        !l.debit_keys.dom().contains(boot_key(e.id)),
        l.accounts[lease].consumed.sum_fits(e.held),
    ensures
        ({
            let (l2, report2) = boot_end_step(
                l,
                report,
                lease,
                boot_row(e, true, now),
                Ok(()),
                now,
            );
            &&& l2.accounts[lease].consumed.at(d) == l.accounts[lease].consumed.at(d) + e.held.at(d)
            &&& report2 == report.with_settled(e.id)
        }),
{
    broadcast use budget_of_at;

}

/// Sorting by lease loses no execution and repeats no lease: each lease that
/// occurs has one group, which holds its executions and no others.
pub proof fn groups_hold_every_row(rows: Seq<ExecutionView>)
    ensures
        leases_of(rows).no_duplicates(),
        forall|k: int|
            #![trigger rows[k]]
            0 <= k < rows.len() ==> leases_of(rows).contains(rows[k].lease_id) && rows_of(
                rows,
                rows[k].lease_id,
            ).contains(rows[k]),
        forall|lease: Seq<char>, e: ExecutionView| #[trigger]
            rows_of(rows, lease).contains(e) ==> e.lease_id == lease && rows.contains(e),
    decreases rows.len(),
{
    if rows.len() > 0 {
        let rest = rows.drop_last();
        let last = rows.last();
        groups_hold_every_row(rest);
        assert forall|k: int|
            #![trigger rows[k]]
            0 <= k < rows.len() implies leases_of(rows).contains(rows[k].lease_id) && rows_of(
            rows,
            rows[k].lease_id,
        ).contains(rows[k]) by {
            let lease = rows[k].lease_id;
            let before = leases_of(rest);
            if k < rest.len() {
                assert(rest[k] == rows[k]);
                let i = choose|i: int| 0 <= i < before.len() && before[i] == lease;
                assert(leases_of(rows)[i] == lease);
                let group = rows_of(rest, lease);
                let j = choose|j: int| 0 <= j < group.len() && group[j] == rows[k];
                assert(rows_of(rows, lease)[j] == rows[k]);
            } else {
                assert(rows[k] == last);
                if !before.contains(lease) {
                    assert(leases_of(rows)[before.len() as int] == lease);
                }
                assert(rows_of(rows, lease)[rows_of(rest, lease).len() as int] == last);
            }
        }
        assert forall|lease: Seq<char>, e: ExecutionView| #[trigger]
            rows_of(rows, lease).contains(e) implies e.lease_id == lease && rows.contains(e) by {
            let group = rows_of(rows, lease);
            let j = choose|j: int| 0 <= j < group.len() && group[j] == e;
            let before = rows_of(rest, lease);
            if j < before.len() {
                assert(before[j] == e);
                assert(before.contains(e));
                let k = choose|k: int| 0 <= k < rest.len() && rest[k] == e;
                assert(rows[k] == e);
            } else {
                assert(rows[rows.len() - 1] == e);
            }
        }
    }
}

/// The ledger and the run after some answers.
pub open spec fn run_over(
    l: LedgerView,
    run: BootRunView,
    events: Seq<BootEventView>,
    now: i64,
) -> (LedgerView, BootRunView)
    decreases events.len(),
{
    if events.len() == 0 {
        (l, run)
    } else {
        let (l1, run1) = run_over(l, run, events.drop_last(), now);
        resumed(l1, run1, events.last(), now)
    }
}

/// The reservations that were found.
pub open spec fn found_views(found: Seq<FoundReservation>) -> Seq<ReservationView> {
    found.map_values(|f: FoundReservation| f.0)
}

/// The leases that were found, with their executions.
pub open spec fn found_groups(found: Seq<FoundLease>) -> Seq<GroupView> {
    found.map_values(|g: FoundLease| (g.lease, g.rows))
}

/// The rows in `ends` are those that end the held executions among `done`, and
/// each was written or could not be.
pub open spec fn ends_rows(g: FoundLease, done: Seq<ExecutionView>, now: i64) -> bool {
    let held = held_rows(done);
    &&& g.ends.len() == held.len()
    &&& g.wrote.len() == held.len()
    &&& forall|i: int|
        #![trigger g.ends[i]]
        0 <= i < held.len() ==> g.ends[i] == boot_row(held[i], g.ends[i].completed, now)
}

/// Every held execution of the lease was ended, unless the lease was given up
/// for want of caps.
pub open spec fn ended(g: FoundLease, now: i64) -> bool {
    ||| ends_rows(g, g.rows, now)
    ||| g.caps is None && g.ends.len() == 0 && g.wrote.len() == 0
}

/// What a run that is over did: `reconciled`, for these reservations, all the
/// executions that the store gave, and its other answers.
pub open spec fn accounts_for(
    l: LedgerView,
    reservations: Seq<ReservationView>,
    events: Seq<BootEventView>,
    now: i64,
    found: Seq<FoundReservation>,
    rows: Seq<ExecutionView>,
    leases: Seq<FoundLease>,
) -> bool {
    let (l2, run) = run_over(l, boot_start(reservations), events, now);
    &&& (l2, run.report) == reconciled(l, found, leases, now)
    &&& found_views(found) == reservations
    &&& events.contains(BootEventView::Executions(rows))
    &&& found_groups(leases) == groups_of(rows)
    &&& forall|i: int| #![trigger leases[i]] 0 <= i < leases.len() ==> ended(leases[i], now)
}

/// What a run has found so far, the lease that it is at, and the rows of that
/// lease that it has passed.
struct Past {
    found: Seq<FoundReservation>,
    rows: Seq<ExecutionView>,
    leases: Seq<FoundLease>,
    current: FoundLease,
    done: Seq<ExecutionView>,
}

/// The reservations and the first leases are done with.
spec fn between_leases(
    l0: LedgerView,
    l: LedgerView,
    report: ReportView,
    reservations: Seq<ReservationView>,
    past: Past,
    groups: Seq<GroupView>,
    now: i64,
) -> bool {
    &&& (l, report) == reconciled(l0, past.found, past.leases, now)
    &&& found_views(past.found) == reservations
    &&& found_groups(past.leases) + groups == groups_of(past.rows)
    &&& forall|i: int|
        #![trigger past.leases[i]]
        0 <= i < past.leases.len() ==> ended(past.leases[i], now)
}

/// The first rows of a lease are done with.
spec fn within_lease(
    l0: LedgerView,
    l: LedgerView,
    report: ReportView,
    reservations: Seq<ReservationView>,
    past: Past,
    lease: Seq<char>,
    rows: Seq<ExecutionView>,
    groups: Seq<GroupView>,
    now: i64,
) -> bool {
    let (l1, report1) = reconciled(l0, past.found, past.leases, now);
    let g = past.current;
    &&& g.lease == lease
    &&& g.rows == past.done + rows
    &&& ends_rows(g, past.done, now)
    &&& boot_lease_step(l1, report1, lease, g.rows, g.caps, now).2
    &&& (l, report) == boot_lease_run(l1, report1, g, now)
    &&& found_views(past.found) == reservations
    &&& found_groups(past.leases).push((lease, g.rows)) + groups == groups_of(past.rows)
    &&& forall|i: int|
        #![trigger past.leases[i]]
        0 <= i < past.leases.len() ==> ended(past.leases[i], now)
}

/// The run stands where the past has led.
spec fn so_far(
    l0: LedgerView,
    l: LedgerView,
    run: BootRunView,
    reservations: Seq<ReservationView>,
    past: Past,
    now: i64,
) -> bool {
    match run.at {
        BootAtView::Reservations(left) => {
            &&& left.len() > 0
            &&& past.leases.len() == 0
            &&& found_views(past.found) + left == reservations
            &&& (l, run.report) == boot_reservations(l0, ReportView::empty(), past.found)
        },
        BootAtView::Executions => {
            &&& past.leases.len() == 0
            &&& found_views(past.found) == reservations
            &&& (l, run.report) == boot_reservations(l0, ReportView::empty(), past.found)
        },
        BootAtView::Caps(groups) => groups.len() > 0 && between_leases(
            l0,
            l,
            run.report,
            reservations,
            past,
            groups,
            now,
        ),
        BootAtView::Ask { lease, rows, groups } => rows.len() > 0 && rows[0].state
            == ExecutionState::Held && within_lease(
            l0,
            l,
            run.report,
            reservations,
            past,
            lease,
            rows,
            groups,
            now,
        ),
        BootAtView::Write { lease, rows, completed, groups } => rows.len() > 0 && rows[0].state
            == ExecutionState::Held && within_lease(
            l0,
            l,
            run.report,
            reservations,
            past,
            lease,
            rows,
            groups,
            now,
        ),
        BootAtView::Done => between_leases(
            l0,
            l,
            run.report,
            reservations,
            past,
            Seq::empty(),
            now,
        ),
    }
}

proof fn rows_go_on(
    l0: LedgerView,
    l: LedgerView,
    report: ReportView,
    reservations: Seq<ReservationView>,
    past: Past,
    lease: Seq<char>,
    rows: Seq<ExecutionView>,
    groups: Seq<GroupView>,
    now: i64,
) -> (past2: Past)
    requires
        within_lease(l0, l, report, reservations, past, lease, rows, groups, now),
    ensures
        past2.rows == past.rows,
        ({
            let (l2, run2) = take_rows(l, report, lease, rows, groups, now);
            so_far(l0, l2, run2, reservations, past2, now) && !(run2.at is Executions) && !(
            run2.at is Reservations)
        }),
    decreases groups.len(), 2int, rows.len(),
{
    if rows.len() == 0 {
        let closed = Past { leases: past.leases.push(past.current), ..past };
        lease_is_done(l0, l, report, reservations, past, lease, rows, groups, now);
        leases_go_on(l0, l, report, reservations, closed, groups, now)
    } else if rows[0].state == ExecutionState::Held {
        past
    } else {
        let passed = Past { done: past.done.push(rows[0]), ..past };
        assert(passed.done.drop_last() =~= past.done);
        assert(passed.done + rows.drop_first() =~= past.done + rows);
        rows_go_on(
            l0,
            l,
            report,
            reservations,
            passed,
            lease,
            rows.drop_first(),
            groups,
            now,
        )
    }
}

proof fn lease_is_done(
    l0: LedgerView,
    l: LedgerView,
    report: ReportView,
    reservations: Seq<ReservationView>,
    past: Past,
    lease: Seq<char>,
    rows: Seq<ExecutionView>,
    groups: Seq<GroupView>,
    now: i64,
)
    requires
        within_lease(l0, l, report, reservations, past, lease, rows, groups, now),
        rows.len() == 0,
    ensures
        between_leases(
            l0,
            l,
            report,
            reservations,
            Past { leases: past.leases.push(past.current), ..past },
            groups,
            now,
        ),
{
    let closed = Past { leases: past.leases.push(past.current), ..past };
    assert(past.done + rows =~= past.done);
    assert(closed.leases.drop_last() =~= past.leases);
    assert(found_groups(closed.leases) =~= found_groups(past.leases).push(
        (lease, past.current.rows),
    ));
    assert forall|i: int|
        #![trigger closed.leases[i]]
        0 <= i < closed.leases.len() implies ended(closed.leases[i], now) by {
        if i < past.leases.len() {
            assert(closed.leases[i] == past.leases[i]);
        }
    }
}

proof fn leases_go_on(
    l0: LedgerView,
    l: LedgerView,
    report: ReportView,
    reservations: Seq<ReservationView>,
    past: Past,
    groups: Seq<GroupView>,
    now: i64,
) -> (past2: Past)
    requires
        between_leases(l0, l, report, reservations, past, groups, now),
    ensures
        past2.rows == past.rows,
        ({
            let (l2, run2) = take_leases(l, report, groups, now);
            so_far(l0, l2, run2, reservations, past2, now) && !(run2.at is Executions) && !(
            run2.at is Reservations)
        }),
    decreases groups.len(), 1int, 0nat,
{
    if groups.len() == 0 {
        assert(groups =~= Seq::<GroupView>::empty());
        past
    } else if !l.accounts.dom().contains(groups[0].0) {
        past
    } else {
        lease_goes_on(l0, l, report, reservations, past, groups, None, now)
    }
}

proof fn lease_goes_on(
    l0: LedgerView,
    l: LedgerView,
    report: ReportView,
    reservations: Seq<ReservationView>,
    past: Past,
    groups: Seq<GroupView>,
    caps: Option<Budget>,
    now: i64,
) -> (past2: Past)
    requires
        between_leases(l0, l, report, reservations, past, groups, now),
        groups.len() > 0,
    ensures
        past2.rows == past.rows,
        ({
            let (l2, run2) = take_lease(l, report, groups, caps, now);
            so_far(l0, l2, run2, reservations, past2, now) && !(run2.at is Executions) && !(
            run2.at is Reservations)
        }),
    decreases groups.len(), 0int, 0nat,
{
    let (lease, rows) = groups[0];
    let rest = groups.drop_first();
    let (l1, report1, go_on) = boot_lease_step(l, report, lease, rows, caps, now);
    let current = FoundLease { lease, rows, caps, ends: Seq::empty(), wrote: Seq::empty() };
    assert(found_groups(past.leases).push((lease, rows)) + rest =~= found_groups(past.leases)
        + groups);
    if go_on {
        let opened = Past { current, done: Seq::empty(), ..past };
        assert(opened.done + rows =~= rows);
        rows_go_on(l0, l1, report1, reservations, opened, lease, rows, rest, now)
    } else {
        let closed = Past { leases: past.leases.push(current), ..past };
        assert(closed.leases.drop_last() =~= past.leases);
        assert(found_groups(closed.leases) =~= found_groups(past.leases).push((lease, rows)));
        assert forall|i: int|
            #![trigger closed.leases[i]]
            0 <= i < closed.leases.len() implies ended(closed.leases[i], now) by {
            if i < past.leases.len() {
                assert(closed.leases[i] == past.leases[i]);
            }
        }
        leases_go_on(l0, l1, report1, reservations, closed, rest, now)
    }
}

/// The run has the executions.
spec fn knows_rows(run: BootRunView) -> bool {
    !(run.at is Reservations) && !(run.at is Executions)
}

proof fn answers_lead_on(
    l0: LedgerView,
    l: LedgerView,
    run: BootRunView,
    reservations: Seq<ReservationView>,
    past: Past,
    event: BootEventView,
    now: i64,
) -> (past2: Past)
    requires
        so_far(l0, l, run, reservations, past, now),
    ensures
        ({
            let (l2, run2) = resumed(l, run, event, now);
            &&& so_far(l0, l2, run2, reservations, past2, now)
            &&& knows_rows(run) ==> knows_rows(run2) && past2.rows == past.rows
            &&& knows_rows(run2) && !knows_rows(run) ==> event == BootEventView::Executions(
                past2.rows,
            )
        }),
{
    match (run.at, event) {
        (BootAtView::Reservations(left), BootEventView::Caps(caps)) => {
            let past2 = Past { found: past.found.push((left[0], caps)), ..past };
            assert(past2.found.drop_last() =~= past.found);
            assert(found_views(past2.found) =~= found_views(past.found).push(left[0]));
            assert(found_views(past2.found) + left.drop_first() =~= found_views(past.found) + left);
            if left.len() == 1 {
                assert(found_views(past2.found) + left.drop_first() =~= found_views(past2.found));
            }
            past2
        },
        (BootAtView::Executions, BootEventView::Executions(rows)) => {
            let past2 = Past { rows, ..past };
            assert(found_groups(past.leases) + groups_of(rows) =~= groups_of(rows));
            leases_go_on(l0, l, run.report, reservations, past2, groups_of(rows), now)
        },
        (BootAtView::Caps(groups), BootEventView::Caps(caps)) => {
            lease_goes_on(l0, l, run.report, reservations, past, groups, caps, now)
        },
        (BootAtView::Write { lease, rows, completed, groups }, BootEventView::Wrote(wrote)) => {
            let g = past.current;
            let row = boot_row(rows[0], completed, now);
            let current = FoundLease { ends: g.ends.push(row), wrote: g.wrote.push(wrote), ..g };
            let past2 = Past { current, done: past.done.push(rows[0]), ..past };
            assert(past2.done.drop_last() =~= past.done);
            assert(past2.done + rows.drop_first() =~= past.done + rows);
            assert(current.ends.drop_last() =~= g.ends);
            assert(current.wrote.drop_last() =~= g.wrote);
            let held = held_rows(past2.done);
            assert(held == held_rows(past.done).push(rows[0]));
            assert forall|i: int|
                #![trigger current.ends[i]]
                0 <= i < held.len() implies current.ends[i] == boot_row(
                held[i],
                current.ends[i].completed,
                now,
            ) by {
                if i < g.ends.len() {
                    assert(current.ends[i] == g.ends[i]);
                }
            }
            let (l1, report1) = boot_end_step(
                l,
                run.report,
                lease,
                row,
                wrote,
                now,
            );
            rows_go_on(
                l0,
                l1,
                report1,
                reservations,
                past2,
                lease,
                rows.drop_first(),
                groups,
                now,
            )
        },
        _ => past,
    }
}

proof fn runs_stay_on_course(
    l: LedgerView,
    reservations: Seq<ReservationView>,
    events: Seq<BootEventView>,
    now: i64,
) -> (past: Past)
    ensures
        ({
            let (l2, run) = run_over(l, boot_start(reservations), events, now);
            &&& so_far(l, l2, run, reservations, past, now)
            &&& knows_rows(run) ==> events.contains(BootEventView::Executions(past.rows))
        }),
    decreases events.len(),
{
    if events.len() == 0 {
        let past = Past {
            found: Seq::empty(),
            rows: Seq::empty(),
            leases: Seq::empty(),
            current: FoundLease {
                lease: Seq::empty(),
                rows: Seq::empty(),
                caps: None,
                ends: Seq::empty(),
                wrote: Seq::empty(),
            },
            done: Seq::empty(),
        };
        assert(found_views(past.found) + reservations =~= reservations);
        assert(reservations.len() == 0 ==> found_views(past.found) =~= reservations);
        past
    } else {
        let rest = events.drop_last();
        let past = runs_stay_on_course(l, reservations, rest, now);
        let (l1, run1) = run_over(l, boot_start(reservations), rest, now);
        let past2 = answers_lead_on(l, l1, run1, reservations, past, events.last(), now);
        let (l2, run2) = run_over(l, boot_start(reservations), events, now);
        if knows_rows(run2) {
            let e = BootEventView::Executions(past2.rows);
            if knows_rows(run1) {
                let i = choose|i: int| 0 <= i < rest.len() && rest[i] == e;
                assert(events[i] == e);
            } else {
                assert(events[events.len() - 1] == e);
            }
        }
        past2
    }
}

/// A run that is over has reconciled all of the store: every reservation and
/// every execution that the store gave, with the held ones ended as its other
/// answers said.
pub proof fn runs_reconcile(
    l: LedgerView,
    reservations: Seq<ReservationView>,
    events: Seq<BootEventView>,
    now: i64,
)
    requires
        run_over(l, boot_start(reservations), events, now).1.at is Done,
    ensures
        exists|
            found: Seq<FoundReservation>,
            rows: Seq<ExecutionView>,
            leases: Seq<FoundLease>,
        | #[trigger]
            accounts_for(l, reservations, events, now, found, rows, leases),
{
    let past = runs_stay_on_course(l, reservations, events, now);
    assert(found_groups(past.leases) + Seq::<GroupView>::empty() =~= found_groups(past.leases));
    assert(accounts_for(l, reservations, events, now, past.found, past.rows, past.leases));
}

/// The row that ends a held execution is that execution's: it differs only in
/// its state, in what it came to and in when it ended. A completed action is
/// settled at the estimate, any other released. Once the row is written, an
/// action that did not complete costs nothing and is reported as released.
/// Where it could not be written nothing is charged, and the failure is
/// reported under the execution.
pub proof fn ended_executions_are_reported(
    l: LedgerView,
    report: ReportView,
    lease: Seq<char>,
    e: ExecutionView,
    completed: bool,
    reason: Seq<char>,
    now: i64,
)
    ensures
        ({
            let end = boot_row(e, completed, now);
            let (l1, report1) = boot_end_step(l, report, lease, end, Err(reason), now);
            let (l2, report2) = boot_end_step(l, report, lease, end, Ok(()), now);
            &&& end.row.id == e.id && end.row.lease_id == e.lease_id
            &&& end.row.action_id == e.action_id && end.row.held == e.held
            &&& end.row.idempotency_key == e.idempotency_key
            &&& end.row.created_at_ms == e.created_at_ms
            &&& end.row.completed_at_ms == Some(now)
            &&& end.row.state == ExecutionState::Settled <==> completed
            &&& end.row.state == ExecutionState::Released <==> !completed
            &&& completed ==> end.row.actual == Some(e.held)
            &&& !completed ==> end.row.actual == e.actual
            &&& l1 == l
            &&& report1.errors == report.errors.push((e.id, reason))
            &&& report1.settled == report.settled && report1.released == report.released
            &&& !completed ==> {
                &&& l2 == l
                &&& report2.released == report.released.push(e.id)
                &&& report2.settled == report.settled && report2.errors == report.errors
            }
            &&& completed ==> {
                &&& report2.released == report.released
                &&& report2.settled == report.settled.push(e.id) && report2.errors == report.errors
                    || report2.settled == report.settled && report2.errors.len()
                    == report.errors.len() + 1 && report2.errors.last().0 == e.id
            }
            &&& report1.rehydrated_leases == report.rehydrated_leases
            &&& report2.rehydrated_leases == report.rehydrated_leases
        }),
{
}

/// A reservation whose parent has no recorded caps changes nothing and is
/// reported as an error. Any other has accounts for both its leases afterwards:
/// one that was missing gets the recorded caps, or, for the child, what is held
/// for it; one that was there keeps its caps. The accounts added are counted,
/// and the reservation stands, unless an error under it is reported.
pub proof fn reservations_bring_their_accounts(
    l: LedgerView,
    report: ReportView,
    res: ReservationView,
    caps: Option<Budget>,
)
    requires
        res.parent_lease_id != res.child_lease_id,
    ensures
        ({
            let (after, out) = boot_reservation_step(l, report, res, caps);
            let parent = l.accounts.dom().contains(res.parent_lease_id);
            let child = l.accounts.dom().contains(res.child_lease_id);
            &&& out.settled == report.settled && out.released == report.released
            &&& caps is None ==> {
                &&& after == l
                &&& out.rehydrated_leases == report.rehydrated_leases
                &&& out.errors.len() == report.errors.len() + 1 && out.errors.last().0 == res.id
            }
            &&& caps matches Some(c) ==> {
                &&& after.accounts.dom().contains(res.parent_lease_id)
                &&& after.accounts.dom().contains(res.child_lease_id)
                &&& after.accounts[res.parent_lease_id].caps == if parent {
                    l.accounts[res.parent_lease_id].caps
                } else {
                    c
                }
                &&& after.accounts[res.child_lease_id].caps == if child {
                    l.accounts[res.child_lease_id].caps
                } else {
                    res.held
                }
                &&& out.rehydrated_leases == report.rehydrated_leases + (if parent {
                    0nat
                } else {
                    1nat
                }) + (if child {
                    0nat
                } else {
                    1nat
                })
                &&& out.errors == report.errors ==> after.reservations.dom().contains(res.id)
                &&& out.errors == report.errors || out.errors.len() == report.errors.len() + 1
                    && out.errors.last().0 == res.id
            }
        }),
{
    let bad = report.with_error(res.id, "no recorded caps for parent lease "@ + res.parent_lease_id);
    assert(bad.errors.len() == report.errors.len() + 1);
    if let Some(c) = caps {
        let l1 = ensure_account(l, res.parent_lease_id, c).0;
        let l2 = ensure_account(l1, res.child_lease_id, res.held).0;
        if let (_, Err(e)) = l2.rehydrate(res) {
            let out = boot_reservation_step(l, report, res, caps).1;
            assert(out.errors.len() == report.errors.len() + 1);
        }
    }
}

/// Where the caps of a lease were never recorded, each of its rows is reported,
/// in order, and nothing else.
pub proof fn rows_without_caps_are_reported(
    report: ReportView,
    lease: Seq<char>,
    rows: Seq<ExecutionView>,
    i: int,
)
    requires
        0 <= i < rows.len(),
    ensures
        ({
            let out = report_missing_caps(report, lease, rows);
            &&& out.errors.len() == report.errors.len() + rows.len()
            &&& out.errors.take(report.errors.len() as int) == report.errors
            &&& out.errors[report.errors.len() + i].0 == rows[i].id
            &&& out.settled == report.settled && out.released == report.released
            &&& out.rehydrated_leases == report.rehydrated_leases
        }),
    decreases rows.len(),
{
    let rest = rows.drop_last();
    if rest.len() > 0 {
        let j = if i < rest.len() {
            i
        } else {
            0
        };
        rows_without_caps_are_reported(report, lease, rest, j);
    } else {
        assert(report_missing_caps(report, lease, rest) == report);
    }
    let before = report_missing_caps(report, lease, rest);
    let after = report_missing_caps(report, lease, rows);
    assert(after.errors.take(report.errors.len() as int) =~= before.errors.take(
        report.errors.len() as int,
    ));
    assert(report.errors.take(report.errors.len() as int) =~= report.errors);
}

} // verus!
