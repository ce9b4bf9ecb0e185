//! The reconciliation at boot, step by step.
//!
//! The run says what it needs next, the caller reads or writes the store and
//! hands the answer back: the recorded caps of each reservation's parent come
//! first, so that the parents' holds are back before anything is charged, then
//! all executions, and then, lease by lease, the caps where the lease has no
//! account, and the end of each held execution.

use crate::budget::{
    Budget, ExecutionReservation, ExecutionState, ExecutionView, LedgerView, Reservation,
    ReservationView,
};
use crate::execution::{
    boot_end_step, boot_lease_step, boot_reservation_step, boot_row, ensure_account, execution_views,
    reapply_settled, report_missing_caps, write_view, BootReconciliation, ExecutionDriver,
    ReportView,
};
use crate::text::str_eq;
use vstd::prelude::*;

verus! {

/// What a run asks for next.
#[derive(Debug)]
pub enum BootStep {
    /// The recorded caps of a lease.
    ReadCaps(String),
    /// Every execution in the store.
    ReadExecutions,
    /// Whether an action dispatched before the crash.
    AskCompleted(String),
    /// That a row is written.
    Write(ExecutionReservation),
    /// Nothing: the run is over.
    Done,
}

/// The model of a `BootStep`.
pub enum BootStepView {
    ReadCaps(Seq<char>),
    ReadExecutions,
    AskCompleted(Seq<char>),
    Write(ExecutionView),
    Done,
}

impl View for BootStep {
    type V = BootStepView;

    open spec fn view(&self) -> BootStepView {
        match *self {
            BootStep::ReadCaps(s) => BootStepView::ReadCaps(s@),
            BootStep::ReadExecutions => BootStepView::ReadExecutions,
            BootStep::AskCompleted(s) => BootStepView::AskCompleted(s@),
            BootStep::Write(row) => BootStepView::Write(row@),
            BootStep::Done => BootStepView::Done,
        }
    }
}

/// An answer to a run.
#[derive(Debug)]
pub enum BootEvent {
    Caps(Option<Budget>),
    Executions(Vec<ExecutionReservation>),
    Completed(bool),
    Wrote(Result<(), String>),
}

/// The model of a `BootEvent`.
pub enum BootEventView {
    Caps(Option<Budget>),
    Executions(Seq<ExecutionView>),
    Completed(bool),
    Wrote(Result<(), Seq<char>>),
}

impl View for BootEvent {
    type V = BootEventView;

    open spec fn view(&self) -> BootEventView {
        match *self {
            BootEvent::Caps(caps) => BootEventView::Caps(caps),
            BootEvent::Executions(rows) => BootEventView::Executions(execution_views(rows@)),
            BootEvent::Completed(c) => BootEventView::Completed(c),
            BootEvent::Wrote(w) => BootEventView::Wrote(write_view(w)),
        }
    }
}

/// A lease and its executions.
pub type GroupView = (Seq<char>, Seq<ExecutionView>);

/// The executions of one lease among `rows`.
pub open spec fn rows_of(rows: Seq<ExecutionView>, lease: Seq<char>) -> Seq<ExecutionView>
    decreases rows.len(),
{
    if rows.len() == 0 {
        Seq::empty()
    } else {
        let rest = rows_of(rows.drop_last(), lease);
        if rows.last().lease_id == lease {
            rest.push(rows.last())
        } else {
            rest
        }
    }
}

/// The leases that occur in `rows`, each once, in the order in which they come.
pub open spec fn leases_of(rows: Seq<ExecutionView>) -> Seq<Seq<char>>
    decreases rows.len(),
{
    if rows.len() == 0 {
        Seq::empty()
    } else {
        let rest = leases_of(rows.drop_last());
        if rest.contains(rows.last().lease_id) {
            rest
        } else {
            rest.push(rows.last().lease_id)
        }
    }
}

/// The executions by lease.
pub open spec fn groups_of(rows: Seq<ExecutionView>) -> Seq<GroupView> {
    leases_of(rows).map_values(|lease: Seq<char>| (lease, rows_of(rows, lease)))
}

/// The model of some groups.
pub open spec fn group_views(groups: Seq<(String, Vec<ExecutionReservation>)>) -> Seq<GroupView> {
    groups.map_values(|g: (String, Vec<ExecutionReservation>)| (g.0@, execution_views(g.1@)))
}

fn rows_for(rows: &Vec<ExecutionReservation>, lease: &str) -> (r: Vec<ExecutionReservation>)
    ensures
        execution_views(r@) == rows_of(execution_views(rows@), lease@),
{
    let ghost views = execution_views(rows@);
    let mut out: Vec<ExecutionReservation> = Vec::new();
    let mut i: usize = 0;
    proof {
        assert(views.take(0) =~= Seq::<ExecutionView>::empty());
        assert(execution_views(out@) =~= Seq::<ExecutionView>::empty());
    }
    while i < rows.len()
        invariant
            i <= rows@.len(),
            views == execution_views(rows@),
            execution_views(out@) == rows_of(views.take(i as int), lease@),
        decreases rows@.len() - i,
    {
        proof {
            assert(views.take(i + 1).drop_last() =~= views.take(i as int));
            assert(views.take(i + 1).last() == rows@[i as int]@);
        }
        if str_eq(rows[i].lease_id.as_str(), lease) {
            let ghost before = out@;
            out.push(rows[i].clone());
            proof {
                assert(execution_views(out@) =~= execution_views(before).push(rows@[i as int]@));
            }
        }
        i += 1;
    }
    proof {
        assert(views.take(views.len() as int) =~= views);
    }
    out
}

/// The leases of some groups.
spec fn group_leases(groups: Seq<(String, Vec<ExecutionReservation>)>) -> Seq<Seq<char>> {
    groups.map_values(|g: (String, Vec<ExecutionReservation>)| g.0@)
}

fn has_group(groups: &Vec<(String, Vec<ExecutionReservation>)>, lease: &str) -> (r: bool)
    ensures
        r == group_leases(groups@).contains(lease@),
{
    let ghost leases = group_leases(groups@);
    let mut g: usize = 0;
    while g < groups.len()
        invariant
            g <= groups@.len(),
            leases == group_leases(groups@),
            forall|j: int| 0 <= j < g ==> #[trigger] leases[j] != lease@,
        decreases groups@.len() - g,
    {
        if str_eq(groups[g].0.as_str(), lease) {
            proof {
                assert(leases[g as int] == lease@);
            }
            return true;
        }
        proof {
            assert(leases[g as int] == groups@[g as int].0@);
        }
        g += 1;
    }
    false
}

/// Sorts executions by lease, keeping their order within a lease.
pub fn group_by_lease(rows: &Vec<ExecutionReservation>) -> (r: Vec<
    (String, Vec<ExecutionReservation>),
>)
    ensures
        group_views(r@) == groups_of(execution_views(rows@)),
{
    let ghost views = execution_views(rows@);
    let mut groups: Vec<(String, Vec<ExecutionReservation>)> = Vec::new();
    let mut i: usize = 0;
    proof {
        assert(views.take(0) =~= Seq::<ExecutionView>::empty());
        assert(group_leases(groups@) =~= Seq::<Seq<char>>::empty());
    }
    while i < rows.len()
        invariant
            i <= rows@.len(),
            views == execution_views(rows@),
            group_leases(groups@) == leases_of(views.take(i as int)),
            forall|g: int|
                #![trigger groups@[g]]
                0 <= g < groups@.len() ==> execution_views(groups@[g].1@) == rows_of(
                    views,
                    groups@[g].0@,
                ),
        decreases rows@.len() - i,
    {
        proof {
            assert(views.take(i + 1).drop_last() =~= views.take(i as int));
            assert(views.take(i + 1).last() == rows@[i as int]@);
        }
        if !has_group(&groups, rows[i].lease_id.as_str()) {
            let ghost before = groups@;
            let list = rows_for(rows, rows[i].lease_id.as_str());
            groups.push((rows[i].lease_id.clone(), list));
            proof {
                assert(group_leases(groups@) =~= group_leases(before).push(
                    rows@[i as int].lease_id@,
                ));
            }
        }
        i += 1;
    }
    proof {
        assert(views.take(views.len() as int) =~= views);
        let all = groups_of(views);
        assert(group_leases(groups@).len() == groups@.len());
        assert forall|g: int| 0 <= g < groups@.len() implies #[trigger] group_views(groups@)[g]
            == all[g] by {
            assert(group_leases(groups@)[g] == groups@[g].0@);
        }
        assert(group_views(groups@) =~= all);
    }
    groups
}

/// Where a run stands.
#[derive(Clone, Copy, Debug, PartialEq, Eq, Structural)]
enum BootAt {
    Reservations,
    Executions,
    Caps,
    Ask,
    Write { completed: bool },
    Done,
}

/// The model of where a run stands, with what is left to do.
pub enum BootAtView {
    /// The caps of the first reservation's parent are awaited.
    Reservations(Seq<ReservationView>),
    /// The executions are awaited.
    Executions,
    /// The caps of the first lease are awaited.
    Caps(Seq<GroupView>),
    /// Whether the action of the first row completed is awaited.
    Ask { lease: Seq<char>, rows: Seq<ExecutionView>, groups: Seq<GroupView> },
    /// The write of the row that ends the first row is awaited.
    Write {
        lease: Seq<char>,
        rows: Seq<ExecutionView>,
        completed: bool,
        groups: Seq<GroupView>,
    },
    Done,
}

/// The model of a `BootRun`.
pub struct BootRunView {
    pub at: BootAtView,
    pub report: ReportView,
}

/// The place behind a reservation.
pub open spec fn at_reservations(left: Seq<ReservationView>) -> BootAtView {
    if left.len() == 0 {
        BootAtView::Executions
    } else {
        BootAtView::Reservations(left)
    }
}

/// A run at its start.
pub open spec fn boot_start(reservations: Seq<ReservationView>) -> BootRunView {
    BootRunView { at: at_reservations(reservations), report: ReportView::empty() }
}

/// Goes on with the rows of a lease that are left: the next held one, or else
/// the next lease.
pub open spec fn take_rows(
    l: LedgerView,
    report: ReportView,
    lease: Seq<char>,
    rows: Seq<ExecutionView>,
    groups: Seq<GroupView>,
    now: i64,
) -> (LedgerView, BootRunView)
    decreases groups.len(), 2int, rows.len(),
{
    if rows.len() == 0 {
        take_leases(l, report, groups, now)
    } else if rows[0].state == ExecutionState::Held {
        (l, BootRunView { at: BootAtView::Ask { lease, rows, groups }, report })
    } else {
        take_rows(l, report, lease, rows.drop_first(), groups, now)
    }
}

/// Goes on with the leases that are left. The recorded caps are asked for only
/// where a lease has no account.
pub open spec fn take_leases(
    l: LedgerView,
    report: ReportView,
    groups: Seq<GroupView>,
    now: i64,
) -> (LedgerView, BootRunView)
    decreases groups.len(), 1int, 0nat,
{
    if groups.len() == 0 {
        (l, BootRunView { at: BootAtView::Done, report })
    } else if !l.accounts.dom().contains(groups[0].0) {
        (l, BootRunView { at: BootAtView::Caps(groups), report })
    } else {
        take_lease(l, report, groups, None, now)
    }
}

/// Reconciles the first lease, and goes on with its held rows.
pub open spec fn take_lease(
    l: LedgerView,
    report: ReportView,
    groups: Seq<GroupView>,
    caps: Option<Budget>,
    now: i64,
) -> (LedgerView, BootRunView)
    decreases groups.len(), 0int, 0nat,
{
    if groups.len() == 0 {
        (l, BootRunView { at: BootAtView::Done, report })
    } else {
        let (lease, rows) = groups[0];
        let (l1, report1, go_on) = boot_lease_step(l, report, lease, rows, caps, now);
        if go_on {
            take_rows(l1, report1, lease, rows, groups.drop_first(), now)
        } else {
            take_leases(l1, report1, groups.drop_first(), now)
        }
    }
}

/// The ledger and the run after an answer. An answer that was not asked for
/// changes nothing.
pub open spec fn resumed(l: LedgerView, run: BootRunView, event: BootEventView, now: i64) -> (
    LedgerView,
    BootRunView,
) {
    match (run.at, event) {
        (BootAtView::Reservations(left), BootEventView::Caps(caps)) => {
            let (l1, report1) = boot_reservation_step(l, run.report, left[0], caps);
            (l1, BootRunView { at: at_reservations(left.drop_first()), report: report1 })
        },
        (BootAtView::Executions, BootEventView::Executions(rows)) => take_leases(
            l,
            run.report,
            groups_of(rows),
            now,
        ),
        (BootAtView::Caps(groups), BootEventView::Caps(caps)) => take_lease(
            l,
            run.report,
            groups,
            caps,
            now,
        ),
        (BootAtView::Ask { lease, rows, groups }, BootEventView::Completed(completed)) => (
            l,
            BootRunView {
                at: BootAtView::Write { lease, rows, completed, groups },
                report: run.report,
            },
        ),
        (BootAtView::Write { lease, rows, completed, groups }, BootEventView::Wrote(wrote)) => {
            let (l1, report1) = boot_end_step(
                l,
                run.report,
                lease,
                boot_row(rows[0], completed, now),
                wrote,
                now,
            );
            take_rows(l1, report1, lease, rows.drop_first(), groups, now)
        },
        _ => (l, run),
    }
}

/// What a run asks for.
pub open spec fn asked(run: BootRunView, now: i64) -> BootStepView {
    match run.at {
        BootAtView::Reservations(left) => BootStepView::ReadCaps(left[0].parent_lease_id),
        BootAtView::Executions => BootStepView::ReadExecutions,
        BootAtView::Caps(groups) => BootStepView::ReadCaps(groups[0].0),
        BootAtView::Ask { rows, .. } => BootStepView::AskCompleted(rows[0].action_id),
        BootAtView::Write { rows, completed, .. } => BootStepView::Write(
            boot_row(rows[0], completed, now).row,
        ),
        BootAtView::Done => BootStepView::Done,
    }
}

/// A reconciliation on its way.
#[derive(Debug)]
pub struct BootRun {
    at: BootAt,
    reservations: Vec<Reservation>,
    next_reservation: usize,
    groups: Vec<(String, Vec<ExecutionReservation>)>,
    next_group: usize,
    next_row: usize,
    report: BootReconciliation,
}

/// The model of some reservations.
pub open spec fn reservation_list(v: Seq<Reservation>) -> Seq<ReservationView> {
    v.map_values(|r: Reservation| r@)
}

impl View for BootRun {
    type V = BootRunView;

    closed spec fn view(&self) -> BootRunView {
        let reservations = reservation_list(self.reservations@).skip(self.next_reservation as int);
        let groups = group_views(self.groups@);
        let g = self.next_group as int;
        let lease = groups[g].0;
        let rows = groups[g].1.skip(self.next_row as int);
        BootRunView {
            at: match self.at {
                BootAt::Reservations => BootAtView::Reservations(reservations),
                BootAt::Executions => BootAtView::Executions,
                BootAt::Caps => BootAtView::Caps(groups.skip(g)),
                BootAt::Ask => BootAtView::Ask { lease, rows, groups: groups.skip(g + 1) },
                BootAt::Write { completed } => BootAtView::Write {
                    lease,
                    rows,
                    completed,
                    groups: groups.skip(g + 1),
                },
                BootAt::Done => BootAtView::Done,
            },
            report: self.report@,
        }
    }
}

impl BootRun {
    /// Something is left of what the run is at.
    pub closed spec fn wf(&self) -> bool {
        match self.at {
            BootAt::Reservations => self.next_reservation < self.reservations@.len(),
            BootAt::Caps => self.next_group < self.groups@.len(),
            BootAt::Ask | BootAt::Write { .. } => self.next_group < self.groups@.len()
                && self.next_row < self.groups@[self.next_group as int].1@.len(),
            _ => true,
        }
    }

    /// A run over the active reservations of the store.
    pub fn new(reservations: Vec<Reservation>) -> (r: BootRun)
        ensures
            r.wf(),
            r@ == boot_start(reservation_list(reservations@)),
    {
        let at = if reservations.len() == 0 {
            BootAt::Executions
        } else {
            BootAt::Reservations
        };
        let r = BootRun {
            at,
            reservations,
            next_reservation: 0,
            groups: Vec::new(),
            next_group: 0,
            next_row: 0,
            report: BootReconciliation::new(),
        };
        proof {
            let all = reservation_list(r.reservations@);
            assert(all.skip(0) =~= all);
        }
        r
    }

    /// How many leases the run has rebuilt.
    pub fn rehydrated_leases(&self) -> (r: usize)
        ensures
            r == self@.report.rehydrated_leases,
    {
        self.report.rehydrated_leases
    }

    /// What the run asks for next.
    pub fn step(&self, now_ms: i64) -> (r: BootStep)
        requires
            self.wf(),
        ensures
            r@ == asked(self@, now_ms),
    {
        match self.at {
            BootAt::Reservations => BootStep::ReadCaps(
                self.reservations[self.next_reservation].parent_lease_id.clone(),
            ),
            BootAt::Executions => BootStep::ReadExecutions,
            BootAt::Caps => BootStep::ReadCaps(self.groups[self.next_group].0.clone()),
            BootAt::Ask => BootStep::AskCompleted(
                self.groups[self.next_group].1[self.next_row].action_id.clone(),
            ),
            BootAt::Write { completed } => BootStep::Write(
                ExecutionDriver::ended_row(
                    &self.groups[self.next_group].1[self.next_row],
                    completed,
                    now_ms,
                ),
            ),
            BootAt::Done => BootStep::Done,
        }
    }

    /// What was done so far.
    pub fn into_report(self) -> (r: BootReconciliation)
        ensures
            r@ == self@.report,
    {
        self.report
    }
}

proof fn charging_counts_nothing(
    l: LedgerView,
    report: ReportView,
    lease: Seq<char>,
    rows: Seq<ExecutionView>,
    now: i64,
)
    ensures
        reapply_settled(l, report, lease, rows, now).1.rehydrated_leases
            == report.rehydrated_leases,
        report_missing_caps(report, lease, rows).rehydrated_leases == report.rehydrated_leases,
    decreases rows.len(),
{
    if rows.len() > 0 {
        charging_counts_nothing(l, report, lease, rows.drop_last(), now);
    }
}

proof fn rows_count_nothing(
    l: LedgerView,
    report: ReportView,
    lease: Seq<char>,
    rows: Seq<ExecutionView>,
    groups: Seq<GroupView>,
    now: i64,
)
    ensures
        take_rows(l, report, lease, rows, groups, now).1.report.rehydrated_leases
            == report.rehydrated_leases,
    decreases groups.len(), 2int, rows.len(),
{
    if rows.len() == 0 {
        leases_count_nothing(l, report, groups, now);
    } else if rows[0].state != ExecutionState::Held {
        rows_count_nothing(l, report, lease, rows.drop_first(), groups, now);
    }
}

proof fn leases_count_nothing(
    l: LedgerView,
    report: ReportView,
    groups: Seq<GroupView>,
    now: i64,
)
    ensures
        take_leases(l, report, groups, now).1.report.rehydrated_leases == report.rehydrated_leases,
    decreases groups.len(), 1int, 0nat,
{
    if groups.len() > 0 && l.accounts.dom().contains(groups[0].0) {
        let (lease, rows) = groups[0];
        charging_counts_nothing(l, report, lease, rows, now);
        let (l1, report1, go_on) = boot_lease_step(l, report, lease, rows, None, now);
        rows_count_nothing(l1, report1, lease, rows, groups.drop_first(), now);
    }
}

proof fn lease_counts_once(
    l: LedgerView,
    report: ReportView,
    groups: Seq<GroupView>,
    caps: Option<Budget>,
    now: i64,
)
    ensures
        take_lease(l, report, groups, caps, now).1.report.rehydrated_leases
            <= report.rehydrated_leases + 1,
    decreases groups.len(),
{
    if groups.len() > 0 {
        let (lease, rows) = groups[0];
        let (l1, report1, go_on) = boot_lease_step(l, report, lease, rows, caps, now);
        charging_counts_nothing(l, report, lease, rows, now);
        if let Some(c) = caps {
            let (l0, n) = ensure_account(l, lease, c);
            charging_counts_nothing(l0, report.with_leases(n), lease, rows, now);
        }
        rows_count_nothing(l1, report1, lease, rows, groups.drop_first(), now);
        leases_count_nothing(l1, report1, groups.drop_first(), now);
    }
}

impl BootRun {
    /// What is left of the rows of the lease that the run is at.
    spec fn rows_left(&self) -> Seq<ExecutionView> {
        group_views(self.groups@)[self.next_group as int].1.skip(self.next_row as int)
    }

    /// The leases from position `g` on.
    spec fn groups_from(&self, g: int) -> Seq<GroupView> {
        group_views(self.groups@).skip(g)
    }

    /// The lease that the run is at.
    spec fn lease(&self) -> Seq<char> {
        self.groups@[self.next_group as int].0@
    }
}

/// Where `boot_on` leads.
spec fn boot_goal(l: LedgerView, run: BootRun, in_rows: bool, now: i64) -> (
    LedgerView,
    BootRunView,
) {
    if in_rows {
        take_rows(
            l,
            run.report@,
            run.lease(),
            run.rows_left(),
            run.groups_from(run.next_group + 1),
            now,
        )
    } else {
        take_leases(l, run.report@, run.groups_from(run.next_group as int), now)
    }
}

impl ExecutionDriver {
    /// Goes on until something is to be asked: with the rows of the lease that
    /// the run is at, or with the leases that are left.
    fn boot_on(&mut self, run: &mut BootRun, in_rows: bool, now_ms: i64)
        requires
            old(self).ledger.wf(),
            old(run).next_group <= old(run).groups@.len(),
            in_rows ==> old(run).next_group < old(run).groups@.len() && old(run).next_row
                <= old(run).groups@[old(run).next_group as int].1@.len(),
        ensures
            final(self).ledger.wf(),
            final(run).wf(),
            (final(self).ledger@, final(run)@) == boot_goal(
                old(self).ledger@,
                *old(run),
                in_rows,
                now_ms,
            ),
    {
        let ghost goal = boot_goal(self.ledger@, *run, in_rows, now_ms);
        let mut inside = in_rows;
        loop
            invariant
                self.ledger.wf(),
                goal == boot_goal(old(self).ledger@, *old(run), in_rows, now_ms),
                run.next_group <= run.groups@.len(),
                inside ==> run.next_group < run.groups@.len() && run.next_row
                    <= run.groups@[run.next_group as int].1@.len(),
                goal == boot_goal(self.ledger@, *run, inside, now_ms),
            decreases
                    run.groups@.len() - run.next_group,
                    if inside {
                        0int
                    } else {
                        1int
                    },
                    if inside {
                        run.groups@[run.next_group as int].1@.len() - run.next_row
                    } else {
                        0int
                    },
        {
            let ghost all = group_views(run.groups@);
            let g = run.next_group;
            let count = run.groups.len();
            if inside {
                proof {
                    assert(all[g as int].1 == execution_views(run.groups@[g as int].1@));
                }
                if run.next_row == run.groups[g].1.len() {
                    run.next_group = g + 1;
                    inside = false;
                } else if run.groups[g].1[run.next_row].state == ExecutionState::Held {
                    run.at = BootAt::Ask;
                    return;
                } else {
                    let ghost left = run.rows_left();
                    run.next_row = run.next_row + 1;
                    proof {
                        assert(run.rows_left() =~= left.drop_first());
                    }
                }
            } else if g == count {
                run.at = BootAt::Done;
                return;
            } else if self.needs_caps(run.groups[g].0.as_str()) {
                run.at = BootAt::Caps;
                return;
            } else {
                proof {
                    assert(run.groups_from(g as int).drop_first() =~= run.groups_from(g + 1));
                }
                if self.boot_lease(
                    run.groups[g].0.as_str(),
                    &run.groups[g].1,
                    &None,
                    now_ms,
                    &mut run.report,
                ) {
                    run.next_row = 0;
                    inside = true;
                    proof {
                        assert(run.rows_left() =~= all[g as int].1);
                    }
                } else {
                    run.next_group = g + 1;
                }
            }
        }
    }

    /// Takes the answer to what the run asked for, and goes on until it asks
    /// again or is over.
    pub fn boot(&mut self, run: &mut BootRun, event: BootEvent, now_ms: i64)
        requires
            old(self).ledger.wf(),
            old(run).wf(),
            old(run)@.report.rehydrated_leases + 2 <= usize::MAX,
        ensures
            final(self).ledger.wf(),
            final(run).wf(),
            (final(self).ledger@, final(run)@) == resumed(
                old(self).ledger@,
                old(run)@,
                event@,
                now_ms,
            ),
            final(run)@.report.rehydrated_leases <= old(run)@.report.rehydrated_leases + 2,
    {
        match (run.at, event) {
            (BootAt::Reservations, BootEvent::Caps(caps)) => {
                let i = run.next_reservation;
                let count = run.reservations.len();
                let ghost left = reservation_list(run.reservations@).skip(i as int);
                self.boot_reservation(&run.reservations[i], &caps, &mut run.report);
                run.next_reservation = i + 1;
                if i + 1 == count {
                    run.at = BootAt::Executions;
                }
                proof {
                    assert(reservation_list(run.reservations@).skip(i + 1) =~= left.drop_first());
                }
            },
            (BootAt::Executions, BootEvent::Executions(rows)) => {
                run.groups = group_by_lease(&rows);
                run.next_group = 0;
                proof {
                    assert(run.groups_from(0) =~= groups_of(execution_views(rows@)));
                    leases_count_nothing(
                        self.ledger@,
                        run.report@,
                        groups_of(execution_views(rows@)),
                        now_ms,
                    );
                }
                self.boot_on(run, false, now_ms);
            },
            (BootAt::Caps, BootEvent::Caps(caps)) => {
                let g = run.next_group;
                let ghost all = group_views(run.groups@);
                proof {
                    assert(g < run.groups.len());
                    lease_counts_once(self.ledger@, run.report@, all.skip(g as int), caps, now_ms);
                    assert(all.skip(g as int).drop_first() =~= all.skip(g + 1));
                }
                if self.boot_lease(
                    run.groups[g].0.as_str(),
                    &run.groups[g].1,
                    &caps,
                    now_ms,
                    &mut run.report,
                ) {
                    run.next_row = 0;
                    proof {
                        assert(run.rows_left() =~= all[g as int].1);
                    }
                    self.boot_on(run, true, now_ms);
                } else {
                    run.next_group = g + 1;
                    self.boot_on(run, false, now_ms);
                }
            },
            (BootAt::Ask, BootEvent::Completed(completed)) => {
                run.at = BootAt::Write { completed };
            },
            (BootAt::Write { completed }, BootEvent::Wrote(wrote)) => {
                let g = run.next_group;
                let i = run.next_row;
                let ghost left = run.rows_left();
                proof {
                    assert(i < run.groups[g as int].1.len());
                }
                self.boot_end(
                    run.groups[g].0.as_str(),
                    &run.groups[g].1[i],
                    completed,
                    wrote,
                    now_ms,
                    &mut run.report,
                );
                run.next_row = i + 1;
                proof {
                    assert(run.rows_left() =~= left.drop_first());
                    rows_count_nothing(
                        self.ledger@,
                        run.report@,
                        run.lease(),
                        run.rows_left(),
                        run.groups_from(g + 1),
                        now_ms,
                    );
                }
                self.boot_on(run, true, now_ms);
            },
            _ => {},
        }
    }
}

} // verus!
