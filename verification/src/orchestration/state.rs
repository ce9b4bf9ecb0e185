//! How far the tasks of a graph are.

use crate::approval::TimestampMillis;
use crate::lists::views;
use crate::orchestration::graph::{
    find_node, nodes_ascend, position, position_stands, GraphView, TaskGraph,
};
use crate::orchestration::{
    OrchestrationError, OrchestrationErrorView, OrchestrationId, TaskNodeId, TaskNodeState,
};
use vstd::prelude::*;

verus! {

/// One revision of the state of a task.
#[derive(Clone, Copy, Debug, PartialEq, Eq)]
pub struct TaskStateRevision {
    orchestration_id: OrchestrationId,
    graph_revision: u64,
    task_node_id: TaskNodeId,
    revision: u64,
    state: TaskNodeState,
    attempt_count: u32,
    created_at: TimestampMillis,
}

/// The model of a `TaskStateRevision`.
pub struct StateView {
    pub orchestration_id: OrchestrationId,
    pub graph_revision: u64,
    pub task_node_id: TaskNodeId,
    pub revision: u64,
    pub state: TaskNodeState,
    pub attempt_count: u32,
    pub created_at: TimestampMillis,
}

impl View for TaskStateRevision {
    type V = StateView;

    closed spec fn view(&self) -> StateView {
        StateView {
            orchestration_id: self.orchestration_id,
            graph_revision: self.graph_revision,
            task_node_id: self.task_node_id,
            revision: self.revision,
            state: self.state,
            attempt_count: self.attempt_count,
            created_at: self.created_at,
        }
    }
}

/// A task may go from one state to another.
pub open spec fn may_follow(from: TaskNodeState, to: TaskNodeState) -> bool {
    match from {
        TaskNodeState::Pending => to == TaskNodeState::Ready || to == TaskNodeState::Blocked || to
            == TaskNodeState::Cancelled,
        TaskNodeState::Ready => to == TaskNodeState::Pending || to == TaskNodeState::Blocked || to
            == TaskNodeState::Running || to == TaskNodeState::Cancelled,
        TaskNodeState::Blocked => to == TaskNodeState::Pending || to == TaskNodeState::Ready || to
            == TaskNodeState::Cancelled,
        TaskNodeState::Running => to == TaskNodeState::Completed || to == TaskNodeState::Failed || to
            == TaskNodeState::Cancelled || to == TaskNodeState::Unknown,
        _ => false,
    }
}

fn transition_allowed(from: TaskNodeState, to: TaskNodeState) -> (r: bool)
    ensures
        r == may_follow(from, to),
{
    match (from, to) {
        (TaskNodeState::Pending, TaskNodeState::Ready) => true,
        (TaskNodeState::Pending, TaskNodeState::Blocked) => true,
        (TaskNodeState::Pending, TaskNodeState::Cancelled) => true,
        (TaskNodeState::Ready, TaskNodeState::Pending) => true,
        (TaskNodeState::Ready, TaskNodeState::Blocked) => true,
        (TaskNodeState::Ready, TaskNodeState::Running) => true,
        (TaskNodeState::Ready, TaskNodeState::Cancelled) => true,
        (TaskNodeState::Blocked, TaskNodeState::Pending) => true,
        (TaskNodeState::Blocked, TaskNodeState::Ready) => true,
        (TaskNodeState::Blocked, TaskNodeState::Cancelled) => true,
        (TaskNodeState::Running, TaskNodeState::Completed) => true,
        (TaskNodeState::Running, TaskNodeState::Failed) => true,
        (TaskNodeState::Running, TaskNodeState::Cancelled) => true,
        (TaskNodeState::Running, TaskNodeState::Unknown) => true,
        _ => false,
    }
}

impl StateView {
    /// What is wrong with stored parts.
    pub open spec fn stored_ok(self, max_attempts: u32) -> bool {
        &&& self.graph_revision > 0
        &&& self.revision > 0
        &&& self.attempt_count <= max_attempts
        &&& (self.state == TaskNodeState::Running ==> self.attempt_count > 0)
    }

    /// The state after a transition, or why there is none. A task that starts
    /// to run counts as one more attempt.
    pub open spec fn moved(self, to: TaskNodeState, max_attempts: u32, at: TimestampMillis) -> Result<
        StateView,
        OrchestrationErrorView,
    > {
        if !may_follow(self.state, to) {
            Err(OrchestrationErrorView::InvalidStateTransition { from: self.state, to })
        } else if self.revision == u64::MAX {
            Err(OrchestrationErrorView::RevisionOverflow)
        } else if to == TaskNodeState::Running && self.attempt_count == u32::MAX {
            Err(OrchestrationErrorView::AttemptOverflow)
        } else if to == TaskNodeState::Running && self.attempt_count + 1 > max_attempts {
            Err(OrchestrationErrorView::AttemptLimitExceeded)
        } else {
            Ok(
                StateView {
                    revision: (self.revision + 1) as u64,
                    state: to,
                    attempt_count: if to == TaskNodeState::Running {
                        (self.attempt_count + 1) as u32
                    } else {
                        self.attempt_count
                    },
                    created_at: at,
                    ..self
                },
            )
        }
    }
}

/// The model of a transition.
pub open spec fn moved_view(r: Result<TaskStateRevision, OrchestrationError>) -> Result<
    StateView,
    OrchestrationErrorView,
> {
    match r {
        Ok(s) => Ok(s@),
        Err(e) => Err(e@),
    }
}

/// The first state of a task.
pub open spec fn first_state(
    orchestration_id: OrchestrationId,
    graph_revision: u64,
    task_node_id: TaskNodeId,
    state: TaskNodeState,
    created_at: TimestampMillis,
) -> StateView {
    StateView {
        orchestration_id,
        graph_revision,
        task_node_id,
        revision: 1,
        state,
        attempt_count: 0,
        created_at,
    }
}

impl TaskStateRevision {
    /// The first state of a task: pending or ready.
    pub fn initial(
        orchestration_id: OrchestrationId,
        graph_revision: u64,
        task_node_id: TaskNodeId,
        state: TaskNodeState,
        created_at: TimestampMillis,
    ) -> (r: TaskStateRevision)
        requires
            graph_revision > 0,
            state == TaskNodeState::Pending || state == TaskNodeState::Ready,
        ensures
            r@ == first_state(orchestration_id, graph_revision, task_node_id, state, created_at),
    {
        TaskStateRevision {
            orchestration_id,
            graph_revision,
            task_node_id,
            revision: 1,
            state,
            attempt_count: 0,
            created_at,
        }
    }

    /// The state with the given parts, as they were stored.
    pub fn from_stored_parts(
        orchestration_id: OrchestrationId,
        graph_revision: u64,
        task_node_id: TaskNodeId,
        revision: u64,
        state: TaskNodeState,
        attempt_count: u32,
        max_attempts: u32,
        created_at: TimestampMillis,
    ) -> (r: Result<TaskStateRevision, OrchestrationError>)
        ensures
            ({
                let v = StateView {
                    orchestration_id,
                    graph_revision,
                    task_node_id,
                    revision,
                    state,
                    attempt_count,
                    created_at,
                };
                match r {
                    Ok(s) => v.stored_ok(max_attempts) && s@ == v,
                    Err(e) => !v.stored_ok(max_attempts) && e
                        == OrchestrationError::InvalidTaskState,
                }
            }),
    {
        if graph_revision == 0 || revision == 0 || attempt_count > max_attempts || (state
            == TaskNodeState::Running && attempt_count == 0) {
            return Err(OrchestrationError::InvalidTaskState);
        }
        Ok(
            TaskStateRevision {
                orchestration_id,
                graph_revision,
                task_node_id,
                revision,
                state,
                attempt_count,
                created_at,
            },
        )
    }

    /// The orchestration.
    pub fn orchestration_id(&self) -> (r: OrchestrationId)
        ensures
            r == self@.orchestration_id,
    {
        self.orchestration_id
    }

    /// The revision of the graph.
    pub fn graph_revision(&self) -> (r: u64)
        ensures
            r == self@.graph_revision,
    {
        self.graph_revision
    }

    /// The node.
    pub fn task_node_id(&self) -> (r: TaskNodeId)
        ensures
            r == self@.task_node_id,
    {
        self.task_node_id
    }

    /// The revision of the state.
    pub fn revision(&self) -> (r: u64)
        ensures
            r == self@.revision,
    {
        self.revision
    }

    /// How far the task is.
    pub fn state(&self) -> (r: TaskNodeState)
        ensures
            r == self@.state,
    {
        self.state
    }

    /// How often it was started.
    pub fn attempt_count(&self) -> (r: u32)
        ensures
            r == self@.attempt_count,
    {
        self.attempt_count
    }

    /// When the state came about.
    pub fn created_at(&self) -> (r: TimestampMillis)
        ensures
            r == self@.created_at,
    {
        self.created_at
    }

    /// The state after a transition.
    pub fn transition(
        &self,
        next_state: TaskNodeState,
        max_attempts: u32,
        created_at: TimestampMillis,
    ) -> (r: Result<TaskStateRevision, OrchestrationError>)
        ensures
            moved_view(r) == self@.moved(next_state, max_attempts, created_at),
    {
        if !transition_allowed(self.state, next_state) {
            return Err(
                OrchestrationError::InvalidStateTransition { from: self.state, to: next_state },
            );
        }
        if self.revision == u64::MAX {
            return Err(OrchestrationError::RevisionOverflow);
        }
        let attempt_count = if next_state == TaskNodeState::Running {
            if self.attempt_count == u32::MAX {
                return Err(OrchestrationError::AttemptOverflow);
            }
            if self.attempt_count + 1 > max_attempts {
                return Err(OrchestrationError::AttemptLimitExceeded);
            }
            self.attempt_count + 1
        } else {
            self.attempt_count
        };
        Ok(
            TaskStateRevision {
                orchestration_id: self.orchestration_id,
                graph_revision: self.graph_revision,
                task_node_id: self.task_node_id,
                revision: self.revision + 1,
                state: next_state,
                attempt_count,
                created_at,
            },
        )
    }
}

/// A task that is completed, failed, cancelled or unknown stays so; it runs
/// only from ready; its revision grows by one and its attempts never pass the
/// limit.
pub proof fn transitions_are_bounded(
    s: StateView,
    to: TaskNodeState,
    max_attempts: u32,
    at: TimestampMillis,
)
    requires
        s.attempt_count <= max_attempts,
    ensures
        s.moved(to, max_attempts, at) matches Ok(t) ==> {
            &&& s.state.managed() || s.state == TaskNodeState::Running
            &&& t.state == to
            &&& to == TaskNodeState::Running ==> s.state == TaskNodeState::Ready
            &&& t.revision == s.revision + 1
            &&& s.attempt_count <= t.attempt_count <= max_attempts
            &&& t.stored_ok(max_attempts) || t.graph_revision == 0
        },
{
}

/// A graph and the states of its tasks. The state of a task stands at the
/// position of its node.
#[derive(Debug, PartialEq, Eq)]
pub struct OrchestrationSnapshot {
    graph: TaskGraph,
    states: Vec<TaskStateRevision>,
}

/// The model of an `OrchestrationSnapshot`.
pub struct SnapshotView {
    pub graph: GraphView,
    pub states: Seq<StateView>,
}

impl View for OrchestrationSnapshot {
    type V = SnapshotView;

    closed spec fn view(&self) -> SnapshotView {
        SnapshotView { graph: self.graph@, states: views(self.states@) }
    }
}

impl SnapshotView {
    /// Each node has its state.
    pub open spec fn wf(self) -> bool {
        &&& self.graph.wf()
        &&& self.states.len() == self.graph.nodes.len()
        &&& forall|i: int|
            0 <= i < self.states.len() ==> (#[trigger] self.states[i]).task_node_id
                == self.graph.nodes[i].id
    }
}

/// A state before `k` is of the given node.
pub open spec fn state_before(states: Seq<StateView>, id: TaskNodeId, k: int) -> bool {
    exists|j: int| 0 <= j < k && (#[trigger] states[j]).task_node_id == id
}

/// The first reason, from state `k` on, why a state does not belong to a graph.
pub open spec fn first_state_flaw(g: GraphView, states: Seq<StateView>, k: int) -> Option<
    OrchestrationErrorView,
>
    decreases states.len() - k,
{
    if k < 0 || k >= states.len() {
        None
    } else {
        let s = states[k];
        match position(g.nodes, s.task_node_id, 0) {
            None => Some(OrchestrationErrorView::UnknownTaskNode(s.task_node_id)),
            Some(i) => if s.orchestration_id != g.orchestration_id || s.graph_revision != g.revision
                || s.attempt_count > g.nodes[i].limits.max_attempts || state_before(
                states,
                s.task_node_id,
                k,
            ) {
                Some(OrchestrationErrorView::InvalidTaskState)
            } else {
                first_state_flaw(g, states, k + 1)
            },
        }
    }
}

/// Why some states are no snapshot of a graph.
pub open spec fn snapshot_flaw(g: GraphView, states: Seq<StateView>) -> Option<
    OrchestrationErrorView,
> {
    if g.content_digest() != g.digest {
        Some(OrchestrationErrorView::DigestMismatch)
    } else if states.len() != g.nodes.len() {
        Some(OrchestrationErrorView::IncompleteStateSnapshot)
    } else {
        first_state_flaw(g, states, 0)
    }
}

/// How many places are filled.
spec fn filled(slots: Seq<Option<TaskStateRevision>>) -> nat
    decreases slots.len(),
{
    if slots.len() == 0 {
        0
    } else {
        filled(slots.drop_last()) + (if slots.last() is Some {
            1nat
        } else {
            0nat
        })
    }
}

proof fn filled_bound(slots: Seq<Option<TaskStateRevision>>)
    ensures
        filled(slots) <= slots.len(),
        filled(slots) == slots.len() ==> forall|i: int|
            0 <= i < slots.len() ==> (#[trigger] slots[i]) is Some,
        (forall|i: int| 0 <= i < slots.len() ==> (#[trigger] slots[i]) is None) ==> filled(slots)
            == 0,
    decreases slots.len(),
{
    if slots.len() > 0 {
        let h = slots.drop_last();
        filled_bound(h);
        assert forall|i: int| 0 <= i < slots.len() && filled(slots) == slots.len() implies (
        #[trigger] slots[i]) is Some by {
            if i < h.len() {
                assert(h[i] is Some);
            }
        }
        if forall|i: int| 0 <= i < slots.len() ==> (#[trigger] slots[i]) is None {
            assert forall|i: int| 0 <= i < h.len() implies (#[trigger] h[i]) is None by {
                assert(slots[i] is None);
            }
        }
    }
}

proof fn filled_one_more(slots: Seq<Option<TaskStateRevision>>, i: int, s: TaskStateRevision)
    requires
        0 <= i < slots.len(),
        slots[i] is None,
    ensures
        filled(slots.update(i, Some(s))) == filled(slots) + 1,
    decreases slots.len(),
{
    let next = slots.update(i, Some(s));
    if i == slots.len() - 1 {
        assert(next.drop_last() =~= slots.drop_last());
    } else {
        assert(next.drop_last() =~= slots.drop_last().update(i, Some(s)));
        filled_one_more(slots.drop_last(), i, s);
    }
}

/// A state that blocks what depends on it.
pub open spec fn is_blocking(s: TaskNodeState) -> bool {
    s == TaskNodeState::Failed || s == TaskNodeState::Cancelled || s == TaskNodeState::Unknown || s
        == TaskNodeState::Blocked
}

impl SnapshotView {
    /// The state of the task with an identity.
    pub open spec fn state_of(self, id: TaskNodeId) -> TaskNodeState {
        self.states[position(self.graph.nodes, id, 0)->0].state
    }

    /// Some task that node `i` depends on blocks it.
    pub open spec fn has_blocker(self, i: int) -> bool {
        exists|j: int|
            0 <= j < self.graph.dependencies[i].len() && is_blocking(
                self.state_of(#[trigger] self.graph.dependencies[i][j]),
            )
    }

    /// All that node `i` depends on is completed.
    pub open spec fn all_completed(self, i: int) -> bool {
        forall|j: int|
            0 <= j < self.graph.dependencies[i].len() ==> self.state_of(
                #[trigger] self.graph.dependencies[i][j],
            ) == TaskNodeState::Completed
    }

    /// The state that node `i` should have, after what it depends on.
    pub open spec fn desired(self, i: int) -> TaskNodeState {
        if self.graph.dependencies[i].len() == 0 {
            TaskNodeState::Ready
        } else if self.has_blocker(i) {
            TaskNodeState::Blocked
        } else if self.all_completed(i) {
            TaskNodeState::Ready
        } else {
            TaskNodeState::Pending
        }
    }

    /// The updates `so_far` and those of the nodes from `i` on: each node whose
    /// state follows from its dependencies goes to the state that it should
    /// have, if it has another.
    pub open spec fn updates(self, at: TimestampMillis, i: int, so_far: Seq<StateView>) -> Result<
        Seq<StateView>,
        OrchestrationErrorView,
    >
        decreases self.states.len() - i,
    {
        if i < 0 || i >= self.states.len() {
            Ok(so_far)
        } else if !self.states[i].state.managed() || self.desired(i) == self.states[i].state {
            self.updates(at, i + 1, so_far)
        } else {
            match self.states[i].moved(
                self.desired(i),
                self.graph.nodes[i].limits.max_attempts,
                at,
            ) {
                Err(e) => Err(e),
                Ok(s) => self.updates(at, i + 1, so_far.push(s)),
            }
        }
    }
}

/// The model of a list of updates.
pub open spec fn updates_view(r: Result<Vec<TaskStateRevision>, OrchestrationError>) -> Result<
    Seq<StateView>,
    OrchestrationErrorView,
> {
    match r {
        Ok(v) => Ok(views(v@)),
        Err(e) => Err(e@),
    }
}

impl OrchestrationSnapshot {
    #[verifier::type_invariant]
    spec fn holds(self) -> bool {
        self@.wf()
    }

    /// A snapshot of a graph: one state for each of its nodes.
    pub fn new(graph: TaskGraph, states: Vec<TaskStateRevision>) -> (r: Result<
        OrchestrationSnapshot,
        OrchestrationError,
    >)
        ensures
            match r {
                Ok(s) => {
                    &&& snapshot_flaw(graph@, views(states@)) is None
                    &&& s@.graph == graph@
                    &&& s@.wf()
                    &&& forall|i: int|
                        0 <= i < s@.states.len() ==> views(states@).contains(
                            #[trigger] s@.states[i],
                        )
                },
                Err(e) => snapshot_flaw(graph@, views(states@)) == Some(e@),
            },
    {
        let ghost g = graph@;
        let ghost all = views(states@);
        match graph.verify_digest() {
            Ok(()) => {},
            Err(e) => {
                return Err(e);
            },
        }
        let nodes = graph.nodes();
        let _deps = graph.dependencies();
        if states.len() != nodes.len() {
            return Err(OrchestrationError::IncompleteStateSnapshot);
        }
        let n: usize = nodes.len();
        let mut slots: Vec<Option<TaskStateRevision>> = Vec::new();
        let mut f: usize = 0;
        while f < n
            invariant
                f <= n,
                slots@.len() == f,
                forall|i: int| 0 <= i < f ==> (#[trigger] slots@[i]) is None,
            decreases n - f,
        {
            slots.push(None);
            f += 1;
        }
        proof {
            filled_bound(slots@);
        }
        let mut k: usize = 0;
        while k < states.len()
            invariant
                k <= states@.len(),
                g == graph@,
                g.wf(),
                all == views(states@),
                views(nodes@) == g.nodes,
                nodes@.len() == n,
                states@.len() == n,
                slots@.len() == n,
                g.content_digest() == g.digest,
                first_state_flaw(g, all, 0) == first_state_flaw(g, all, k as int),
                filled(slots@) == k,
                forall|i: int|
                    0 <= i < n ==> ((#[trigger] slots@[i]) matches Some(s) ==> s@.task_node_id
                        == g.nodes[i].id && all.contains(s@)),
                forall|i: int|
                    0 <= i < n ==> ((#[trigger] slots@[i]) is Some <==> state_before(
                        all,
                        g.nodes[i].id,
                        k as int,
                    )),
            decreases states@.len() - k,
        {
            let s = states[k];
            proof {
                assert(all[k as int] == s@);
            }
            let i = match find_node(nodes, s.task_node_id) {
                Some(i) => i,
                None => {
                    return Err(OrchestrationError::UnknownTaskNode(s.task_node_id));
                },
            };
            proof {
                assert(g.nodes[i as int] == nodes@[i as int]@);
            }
            if s.orchestration_id != graph.orchestration_id() || s.graph_revision
                != graph.revision() || s.attempt_count > nodes[i].limits().max_attempts
                || slots[i].is_some() {
                return Err(OrchestrationError::InvalidTaskState);
            }
            let ghost before = slots@;
            proof {
                filled_one_more(before, i as int, s);
            }
            slots.set(i, Some(s));
            proof {
                assert(slots@ =~= before.update(i as int, Some(s)));
                assert(all.contains(all[k as int]));
                assert forall|m: int| 0 <= m < n implies ((#[trigger] slots@[m]) is Some
                    <==> state_before(all, g.nodes[m].id, k + 1)) by {
                    if m == i {
                        assert(all[k as int].task_node_id == g.nodes[m].id);
                    } else {
                        assert(before[m] is Some <==> state_before(all, g.nodes[m].id, k as int));
                        if i < m {
                            assert(g.nodes[i as int].id.value < g.nodes[m].id.value);
                        } else {
                            assert(g.nodes[m].id.value < g.nodes[i as int].id.value);
                        }
                        if state_before(all, g.nodes[m].id, k + 1) {
                            let j = choose|j: int|
                                0 <= j < k + 1 && (#[trigger] all[j]).task_node_id
                                    == g.nodes[m].id;
                            assert(j < k);
                        }
                        if state_before(all, g.nodes[m].id, k as int) {
                            let j = choose|j: int|
                                0 <= j < k && (#[trigger] all[j]).task_node_id == g.nodes[m].id;
                            assert(all[j].task_node_id == g.nodes[m].id);
                        }
                    }
                }
            }
            k += 1;
        }
        proof {
            filled_bound(slots@);
        }
        let mut list: Vec<TaskStateRevision> = Vec::new();
        let mut i: usize = 0;
        while i < n
            invariant
                i <= n,
                slots@.len() == n,
                g.nodes.len() == n,
                list@.len() == i,
                forall|m: int| 0 <= m < n ==> (#[trigger] slots@[m]) is Some,
                forall|m: int|
                    0 <= m < n ==> ((#[trigger] slots@[m]) matches Some(s) ==> s@.task_node_id
                        == g.nodes[m].id && all.contains(s@)),
                forall|m: int|
                    0 <= m < i ==> (#[trigger] list@[m])@.task_node_id == g.nodes[m].id
                        && all.contains(list@[m]@),
            decreases n - i,
        {
            proof {
                assert(slots@[i as int] is Some);
            }
            if let Some(s) = slots[i] {
                list.push(s);
            }
            i += 1;
        }
        let ghost sv = views(list@);
        proof {
            assert forall|m: int| 0 <= m < sv.len() implies (#[trigger] sv[m]).task_node_id
                == g.nodes[m].id by {
                assert(list@[m]@.task_node_id == g.nodes[m].id);
            }
        }
        let r = OrchestrationSnapshot { graph, states: list };
        proof {
            assert forall|m: int| 0 <= m < r@.states.len() implies all.contains(
                #[trigger] r@.states[m],
            ) by {
                assert(all.contains(list@[m]@));
            }
        }
        Ok(r)
    }

    /// The graph.
    pub fn graph(&self) -> (r: &TaskGraph)
        ensures
            r@ == self@.graph,
    {
        &self.graph
    }

    /// The states in the order of the nodes.
    pub fn states(&self) -> (r: &Vec<TaskStateRevision>)
        ensures
            views(r@) == self@.states,
            self@.wf(),
    {
        proof {
            use_type_invariant(self);
        }
        &self.states
    }

    /// The state of the task with an identity.
    pub fn state(&self, node_id: TaskNodeId) -> (r: Option<&TaskStateRevision>)
        ensures
            match r {
                Some(s) => position(self@.graph.nodes, node_id, 0) matches Some(i) && s@
                    == self@.states[i],
                None => position(self@.graph.nodes, node_id, 0) is None,
            },
    {
        proof {
            use_type_invariant(self);
        }
        match find_node(self.graph.nodes(), node_id) {
            Some(i) => Some(&self.states[i]),
            None => None,
        }
    }

    fn desired_state(&self, i: usize) -> (r: TaskNodeState)
        requires
            i < self@.states.len(),
        ensures
            r == self@.desired(i as int),
    {
        proof {
            use_type_invariant(self);
        }
        let ghost v = self@;
        let all = self.graph.dependencies();
        let deps = &all[i];
        let ghost d = v.graph.dependencies[i as int];
        proof {
            assert(d == deps@);
        }
        if deps.len() == 0 {
            return TaskNodeState::Ready;
        }
        let mut completed = true;
        let mut blocked = false;
        let mut j: usize = 0;
        while j < deps.len()
            invariant
                j <= deps@.len(),
                v == self@,
                v.wf(),
                i < v.states.len(),
                d == v.graph.dependencies[i as int],
                d == deps@,
                blocked <==> exists|m: int|
                    0 <= m < j && is_blocking(
                        v.state_of(#[trigger] v.graph.dependencies[i as int][m]),
                    ),
                completed <==> forall|m: int|
                    0 <= m < j ==> v.state_of(#[trigger] v.graph.dependencies[i as int][m])
                        == TaskNodeState::Completed,
            decreases deps@.len() - j,
        {
            proof {
                assert(v.graph.dependencies[i as int][j as int] == deps@[j as int]);
                assert(position(v.graph.nodes, v.graph.dependencies[i as int][j as int], 0) is Some);
            }
            let state = match self.state(deps[j]) {
                Some(s) => s.state,
                None => TaskNodeState::Unknown,
            };
            proof {
                assert(state == v.state_of(v.graph.dependencies[i as int][j as int]));
            }
            match state {
                TaskNodeState::Failed
                | TaskNodeState::Cancelled
                | TaskNodeState::Unknown
                | TaskNodeState::Blocked => {
                    blocked = true;
                },
                _ => {},
            }
            if state != TaskNodeState::Completed {
                completed = false;
            }
            j += 1;
        }
        if blocked {
            TaskNodeState::Blocked
        } else if completed {
            TaskNodeState::Ready
        } else {
            TaskNodeState::Pending
        }
    }

    /// The updates after which each task is ready, pending or blocked as what
    /// it depends on says.
    pub fn readiness_updates(&self, created_at: TimestampMillis) -> (r: Result<
        Vec<TaskStateRevision>,
        OrchestrationError,
    >)
        ensures
            updates_view(r) == self@.updates(created_at, 0, Seq::empty()),
    {
        proof {
            use_type_invariant(self);
        }
        let ghost v = self@;
        let nodes = self.graph.nodes();
        let mut updates: Vec<TaskStateRevision> = Vec::new();
        proof {
            assert(views(updates@) =~= Seq::<StateView>::empty());
        }
        let mut i: usize = 0;
        while i < self.states.len()
            invariant
                i <= self.states@.len(),
                v == self@,
                v.wf(),
                v.states == views(self.states@),
                v.graph.nodes == views(nodes@),
                v.updates(created_at, 0, Seq::empty()) == v.updates(
                    created_at,
                    i as int,
                    views(updates@),
                ),
            decreases self.states@.len() - i,
        {
            let current = &self.states[i];
            proof {
                assert(v.states[i as int] == current@);
                assert(v.graph.nodes[i as int] == nodes@[i as int]@);
            }
            if current.state.is_readiness_managed() {
                let desired = self.desired_state(i);
                if desired != current.state {
                    let ghost before = views(updates@);
                    match current.transition(desired, nodes[i].limits().max_attempts, created_at) {
                        Ok(s) => {
                            updates.push(s);
                            proof {
                                assert(views(updates@) =~= before.push(s@));
                            }
                        },
                        Err(e) => {
                            return Err(e);
                        },
                    }
                }
            }
            i += 1;
        }
        Ok(updates)
    }
}

/// A task should be ready exactly if all that it depends on is completed, and
/// blocked exactly if some of that failed, was cancelled, is unknown or is
/// itself blocked.
pub proof fn readiness_follows_dependencies(v: SnapshotView, i: int)
    ensures
        v.desired(i) == TaskNodeState::Ready <==> v.all_completed(i),
        v.desired(i) == TaskNodeState::Blocked <==> v.has_blocker(i),
        v.desired(i).managed(),
{
    if v.all_completed(i) && v.has_blocker(i) {
        let j = choose|j: int|
            0 <= j < v.graph.dependencies[i].len() && is_blocking(
                v.state_of(#[trigger] v.graph.dependencies[i][j]),
            );
        assert(v.state_of(v.graph.dependencies[i][j]) == TaskNodeState::Completed);
    }
}

/// Updates of readiness succeed as long as no revision is used up. They touch
/// only tasks that are pending, ready or blocked, keep the attempts, and give
/// each the state that it should have.
pub proof fn updates_are_sound(
    v: SnapshotView,
    at: TimestampMillis,
    i: int,
    so_far: Seq<StateView>,
)
    requires
        v.wf(),
        0 <= i,
        forall|k: int| 0 <= k < v.states.len() ==> (#[trigger] v.states[k]).revision < u64::MAX,
        forall|k: int| 0 <= k < so_far.len() ==> sound_update(v, at, #[trigger] so_far[k]),
    ensures
        v.updates(at, i, so_far) matches Ok(u) && forall|k: int|
            0 <= k < u.len() ==> sound_update(v, at, #[trigger] u[k]),
    decreases v.states.len() - i,
{
    if i < v.states.len() {
        readiness_follows_dependencies(v, i);
        if !v.states[i].state.managed() || v.desired(i) == v.states[i].state {
            updates_are_sound(v, at, i + 1, so_far);
        } else {
            let s = v.states[i].moved(v.desired(i), v.graph.nodes[i].limits.max_attempts, at)->Ok_0;
            let next = so_far.push(s);
            assert(v.states[i].revision < u64::MAX);
            assert(updates_state(v, at, i, s));
            assert forall|k: int| 0 <= k < next.len() implies sound_update(
                v,
                at,
                #[trigger] next[k],
            ) by {
                if k < so_far.len() {
                    assert(sound_update(v, at, so_far[k]));
                }
            }
            updates_are_sound(v, at, i + 1, next);
        }
    }
}

/// `s` is the update of the task at position `i`.
pub open spec fn updates_state(v: SnapshotView, at: TimestampMillis, i: int, s: StateView) -> bool {
    &&& 0 <= i < v.states.len()
    &&& v.states[i].state.managed()
    &&& v.states[i].state != s.state
    &&& s == (StateView {
        revision: (v.states[i].revision + 1) as u64,
        state: v.desired(i),
        created_at: at,
        ..v.states[i]
    })
}

/// `s` is the update of some task.
pub open spec fn sound_update(v: SnapshotView, at: TimestampMillis, s: StateView) -> bool {
    exists|i: int| #[trigger] updates_state(v, at, i, s)
}

/// Task `k` is one that task `i` depends on.
pub open spec fn depends_on(v: SnapshotView, i: int, k: int) -> bool {
    0 <= k < v.states.len() && v.graph.dependencies[i].contains(v.states[k].task_node_id)
}

/// The state `to` is what the dependencies of task `i` call for. One that
/// failed, was cancelled, is unknown or is blocked calls for blocked. Otherwise
/// all of them being completed, or there being none, calls for ready, and
/// anything else for pending.
pub open spec fn called_for(v: SnapshotView, i: int, to: TaskNodeState) -> bool {
    let spoiled = exists|k: int| #[trigger]
        depends_on(v, i, k) && (v.states[k].state == TaskNodeState::Failed || v.states[k].state
            == TaskNodeState::Cancelled || v.states[k].state == TaskNodeState::Unknown
            || v.states[k].state == TaskNodeState::Blocked);
    let done = forall|k: int| #[trigger]
        depends_on(v, i, k) ==> v.states[k].state == TaskNodeState::Completed;
    &&& to == TaskNodeState::Blocked <==> spoiled
    &&& to == TaskNodeState::Ready <==> !spoiled && done
    &&& to == TaskNodeState::Pending <==> !spoiled && !done
}

/// The updates of readiness are sound and complete. A task that is pending,
/// ready or blocked, and whose dependencies call for another state, has exactly
/// one update, which is one revision later, stands at the given time, gives it
/// that state and keeps all else. No other task has an update. They come in the
/// order of the tasks.
pub proof fn updates_are_exactly_those_called_for(
    v: SnapshotView,
    at: TimestampMillis,
    i: int,
    to: TaskNodeState,
)
    requires
        v.wf(),
        forall|k: int| 0 <= k < v.states.len() ==> (#[trigger] v.states[k]).revision < u64::MAX,
        0 <= i < v.states.len(),
        called_for(v, i, to),
    ensures
        v.updates(at, 0, Seq::empty()) matches Ok(u) && {
            let now = v.states[i];
            let due = (now.state == TaskNodeState::Pending || now.state == TaskNodeState::Ready
                || now.state == TaskNodeState::Blocked) && now.state != to;
            &&& due ==> exists|n: int|
                0 <= n < u.len() && #[trigger] u[n] == (StateView {
                    orchestration_id: now.orchestration_id,
                    graph_revision: now.graph_revision,
                    task_node_id: now.task_node_id,
                    revision: (now.revision + 1) as u64,
                    state: to,
                    attempt_count: now.attempt_count,
                    created_at: at,
                })
            &&& !due ==> forall|n: int|
                0 <= n < u.len() ==> (#[trigger] u[n]).task_node_id != now.task_node_id
            &&& forall|n: int, m: int|
                #![trigger u[n], u[m]]
                0 <= n < m < u.len() ==> u[n].task_node_id.value < u[m].task_node_id.value
            &&& forall|n: int|
                0 <= n < u.len() ==> exists|k: int|
                    0 <= k < v.states.len() && (#[trigger] v.states[k]).task_node_id == (
                    #[trigger] u[n]).task_node_id
        },
{
    let none = Seq::<StateView>::empty();
    assert(revisions_left(v));
    updates_begin(v, at, 0, none);
    desired_is_called_for(v, i, to);
    let u = v.updates(at, 0, none)->Ok_0;
    let now = v.states[i];
    let due = now.state.managed() && now.state != to;
    assert forall|n: int| 0 <= n < u.len() implies exists|k: int|
        0 <= k < v.states.len() && (#[trigger] v.states[k]).task_node_id == (
        #[trigger] u[n]).task_node_id by {
        let k = task_of(v, at, 0, none, n);
        assert(v.states[k].task_node_id == u[n].task_node_id);
    }
    assert forall|n: int, m: int| #![trigger u[n], u[m]] 0 <= n < m < u.len() implies
        u[n].task_node_id.value < u[m].task_node_id.value by {
        updates_ascend(v, at, 0, none, n, m);
    }
    if due {
        let n = update_of(v, at, 0, none, i);
        assert(u[n].state == to);
    } else {
        assert forall|n: int| 0 <= n < u.len() implies (#[trigger] u[n]).task_node_id
            != now.task_node_id by {
            let k = task_of(v, at, 0, none, n);
            assert(v.graph.nodes[k].id == v.states[k].task_node_id);
            assert(v.graph.nodes[i].id == v.states[i].task_node_id);
            assert(nodes_ascend(v.graph.nodes));
            if k < i {
                assert(v.graph.nodes[k].id.value < v.graph.nodes[i].id.value);
            } else if i < k {
                assert(v.graph.nodes[i].id.value < v.graph.nodes[k].id.value);
            }
        }
    }
}

proof fn dependency_at(v: SnapshotView, i: int, j: int) -> (k: int)
    requires
        v.wf(),
        0 <= i < v.states.len(),
        0 <= j < v.graph.dependencies[i].len(),
    ensures
        depends_on(v, i, k),
        v.state_of(v.graph.dependencies[i][j]) == v.states[k].state,
{
    let id = v.graph.dependencies[i][j];
    assert(position(v.graph.nodes, v.graph.dependencies[i][j], 0) is Some);
    position_stands(v.graph.nodes, id, 0);
    let k = position(v.graph.nodes, id, 0)->0;
    assert(v.states[k].task_node_id == v.graph.nodes[k].id);
    assert(v.graph.dependencies[i].contains(v.graph.dependencies[i][j]));
    k
}

proof fn place_of_dependency(v: SnapshotView, i: int, k: int) -> (j: int)
    requires
        v.wf(),
        0 <= i < v.states.len(),
        depends_on(v, i, k),
    ensures
        0 <= j < v.graph.dependencies[i].len(),
        v.state_of(v.graph.dependencies[i][j]) == v.states[k].state,
{
    let deps = v.graph.dependencies[i];
    let id = v.states[k].task_node_id;
    let j = choose|j: int| 0 <= j < deps.len() && deps[j] == id;
    position_stands(v.graph.nodes, id, 0);
    assert(v.graph.nodes[k].id == id);
    let p = position(v.graph.nodes, id, 0)->0;
    assert(nodes_ascend(v.graph.nodes));
    if p < k {
        assert(v.graph.nodes[p].id.value < v.graph.nodes[k].id.value);
    } else if k < p {
        assert(v.graph.nodes[k].id.value < v.graph.nodes[p].id.value);
    }
    j
}

proof fn desired_is_called_for(v: SnapshotView, i: int, to: TaskNodeState)
    requires
        v.wf(),
        0 <= i < v.states.len(),
        called_for(v, i, to),
    ensures
        v.desired(i) == to,
{
    let deps = v.graph.dependencies[i];
    readiness_follows_dependencies(v, i);
    if v.has_blocker(i) {
        let j = choose|j: int|
            0 <= j < deps.len() && is_blocking(v.state_of(#[trigger] v.graph.dependencies[i][j]));
        let k = dependency_at(v, i, j);
        assert(depends_on(v, i, k));
        assert(to == TaskNodeState::Blocked);
    } else {
        assert forall|k: int| #[trigger] depends_on(v, i, k) implies !is_blocking(
            v.states[k].state,
        ) by {
            let j = place_of_dependency(v, i, k);
            assert(!is_blocking(v.state_of(v.graph.dependencies[i][j])));
        }
        if v.all_completed(i) {
            assert forall|k: int| #[trigger] depends_on(v, i, k) implies v.states[k].state
                == TaskNodeState::Completed by {
                let j = place_of_dependency(v, i, k);
                assert(v.state_of(v.graph.dependencies[i][j]) == TaskNodeState::Completed);
            }
        } else {
            let j = choose|j: int|
                0 <= j < deps.len() && v.state_of(#[trigger] v.graph.dependencies[i][j])
                    != TaskNodeState::Completed;
            let k = dependency_at(v, i, j);
            assert(depends_on(v, i, k));
        }
    }
}

/// No revision is used up.
spec fn revisions_left(v: SnapshotView) -> bool {
    forall|k: int| 0 <= k < v.states.len() ==> (#[trigger] v.states[k]).revision < u64::MAX
}

proof fn one_update(v: SnapshotView, at: TimestampMillis, i: int, so_far: Seq<StateView>)
    requires
        v.wf(),
        revisions_left(v),
        0 <= i < v.states.len(),
    ensures
        ({
            let s = v.states[i].moved(v.desired(i), v.graph.nodes[i].limits.max_attempts, at);
            let due = v.states[i].state.managed() && v.desired(i) != v.states[i].state;
            &&& v.updates(at, i, so_far) == v.updates(
                at,
                i + 1,
                if due {
                    so_far.push(s->Ok_0)
                } else {
                    so_far
                },
            )
            &&& due ==> updates_state(v, at, i, s->Ok_0)
        }),
{
    readiness_follows_dependencies(v, i);
    assert(v.states[i].revision < u64::MAX);
}

proof fn updates_begin(v: SnapshotView, at: TimestampMillis, i: int, so_far: Seq<StateView>)
    requires
        v.wf(),
        revisions_left(v),
        0 <= i <= v.states.len(),
    ensures
        v.updates(at, i, so_far) is Ok,
        so_far.is_prefix_of(v.updates(at, i, so_far)->Ok_0),
    decreases v.states.len() - i,
{
    if i < v.states.len() {
        one_update(v, at, i, so_far);
        let s = v.states[i].moved(v.desired(i), v.graph.nodes[i].limits.max_attempts, at);
        if v.states[i].state.managed() && v.desired(i) != v.states[i].state {
            let next = so_far.push(s->Ok_0);
            updates_begin(v, at, i + 1, next);
            let u = v.updates(at, i, so_far)->Ok_0;
            assert(so_far =~= next.subrange(0, so_far.len() as int));
            assert(so_far =~= u.subrange(0, so_far.len() as int));
        } else {
            updates_begin(v, at, i + 1, so_far);
        }
    } else {
        assert(so_far =~= so_far.subrange(0, so_far.len() as int));
    }
}

proof fn update_of(
    v: SnapshotView,
    at: TimestampMillis,
    i: int,
    so_far: Seq<StateView>,
    k: int,
) -> (n: int)
    requires
        v.wf(),
        revisions_left(v),
        0 <= i <= k < v.states.len(),
        v.states[k].state.managed(),
        v.desired(k) != v.states[k].state,
    ensures
        so_far.len() <= n < v.updates(at, i, so_far)->Ok_0.len(),
        updates_state(v, at, k, v.updates(at, i, so_far)->Ok_0[n]),
    decreases v.states.len() - i,
{
    one_update(v, at, i, so_far);
    let s = v.states[i].moved(v.desired(i), v.graph.nodes[i].limits.max_attempts, at);
    let due = v.states[i].state.managed() && v.desired(i) != v.states[i].state;
    let next = if due {
        so_far.push(s->Ok_0)
    } else {
        so_far
    };
    if k == i {
        updates_begin(v, at, i + 1, next);
        let u = v.updates(at, i, so_far)->Ok_0;
        assert(next[so_far.len() as int] == u.subrange(0, next.len() as int)[so_far.len() as int]);
        so_far.len() as int
    } else {
        update_of(v, at, i + 1, next, k)
    }
}

proof fn task_of(
    v: SnapshotView,
    at: TimestampMillis,
    i: int,
    so_far: Seq<StateView>,
    n: int,
) -> (k: int)
    requires
        v.wf(),
        revisions_left(v),
        0 <= i <= v.states.len(),
        so_far.len() <= n < v.updates(at, i, so_far)->Ok_0.len(),
    ensures
        i <= k < v.states.len(),
        updates_state(v, at, k, v.updates(at, i, so_far)->Ok_0[n]),
    decreases v.states.len() - i,
{
    if i >= v.states.len() {
        i
    } else {
        one_update(v, at, i, so_far);
        let s = v.states[i].moved(v.desired(i), v.graph.nodes[i].limits.max_attempts, at);
        let due = v.states[i].state.managed() && v.desired(i) != v.states[i].state;
        let next = if due {
            so_far.push(s->Ok_0)
        } else {
            so_far
        };
        if n < next.len() {
            updates_begin(v, at, i + 1, next);
            let u = v.updates(at, i, so_far)->Ok_0;
            assert(next[n] == u.subrange(0, next.len() as int)[n]);
            i
        } else {
            task_of(v, at, i + 1, next, n)
        }
    }
}

proof fn updates_ascend(
    v: SnapshotView,
    at: TimestampMillis,
    i: int,
    so_far: Seq<StateView>,
    n: int,
    m: int,
)
    requires
        v.wf(),
        revisions_left(v),
        0 <= i <= v.states.len(),
        so_far.len() <= n < m < v.updates(at, i, so_far)->Ok_0.len(),
    ensures
        v.updates(at, i, so_far)->Ok_0[n].task_node_id.value < v.updates(
            at,
            i,
            so_far,
        )->Ok_0[m].task_node_id.value,
    decreases v.states.len() - i,
{
    if i < v.states.len() {
        one_update(v, at, i, so_far);
        let s = v.states[i].moved(v.desired(i), v.graph.nodes[i].limits.max_attempts, at);
        let due = v.states[i].state.managed() && v.desired(i) != v.states[i].state;
        let next = if due {
            so_far.push(s->Ok_0)
        } else {
            so_far
        };
        if n < next.len() {
            updates_begin(v, at, i + 1, next);
            let u = v.updates(at, i, so_far)->Ok_0;
            assert(next[n] == u.subrange(0, next.len() as int)[n]);
            let k = task_of(v, at, i + 1, next, m);
            assert(v.graph.nodes[k].id == v.states[k].task_node_id);
            assert(v.graph.nodes[i].id == v.states[i].task_node_id);
            assert(nodes_ascend(v.graph.nodes));
            assert(v.graph.nodes[i].id.value < v.graph.nodes[k].id.value);
        } else {
            updates_ascend(v, at, i + 1, next, n, m);
        }
    }
}

/// Which state may follow which: a task that waits may become ready, pending or
/// blocked, or be cancelled; one that is ready may run; one that runs ends
/// completed, failed, cancelled or unknown; and one that ended stays as it is.
/// A move is made whenever it may be and the numbers allow it.
pub proof fn moves_follow_the_table(
    s: StateView,
    to: TaskNodeState,
    max_attempts: u32,
    at: TimestampMillis,
)
    ensures
        ({
            let waits = s.state == TaskNodeState::Pending || s.state == TaskNodeState::Ready
                || s.state == TaskNodeState::Blocked;
            let ended = to == TaskNodeState::Completed || to == TaskNodeState::Failed || to
                == TaskNodeState::Unknown;
            let still = to == TaskNodeState::Pending || to == TaskNodeState::Ready || to
                == TaskNodeState::Blocked;
            let free = (waits && still && to != s.state) || ((waits || s.state
                == TaskNodeState::Running) && to == TaskNodeState::Cancelled) || (s.state
                == TaskNodeState::Ready && to == TaskNodeState::Running) || (s.state
                == TaskNodeState::Running && ended);
            let runs = to == TaskNodeState::Running;
            &&& s.moved(to, max_attempts, at) is Ok <==> free && s.revision < u64::MAX && (runs
                ==> s.attempt_count < max_attempts)
            &&& s.moved(to, max_attempts, at) matches Ok(t) ==> {
                &&& t.state == to && t.created_at == at && t.revision == s.revision + 1
                &&& t.task_node_id == s.task_node_id && t.orchestration_id == s.orchestration_id
                &&& t.graph_revision == s.graph_revision
                &&& runs ==> t.attempt_count == s.attempt_count + 1
                &&& !runs ==> t.attempt_count == s.attempt_count
            }
        }),
{
}

/// Some states are a snapshot of a graph exactly if the graph has its digest,
/// there are as many as it has nodes, no two are of one node, and each is of a
/// node of this very revision of the graph and counts no more attempts than that
/// node may have.
pub proof fn snapshots_are_of_their_graph(g: GraphView, states: Seq<StateView>)
    requires
        nodes_ascend(g.nodes),
    ensures
        snapshot_flaw(g, states) is None <==> {
            &&& g.content_digest() == g.digest
            &&& states.len() == g.nodes.len()
            &&& forall|i: int, j: int|
                0 <= i < j < states.len() ==> (#[trigger] states[i]).task_node_id != (
                #[trigger] states[j]).task_node_id
            &&& forall|k: int| 0 <= k < states.len() ==> belongs(g, #[trigger] states[k])
        },
{
    if first_state_flaw(g, states, 0) is None {
        assert forall|k: int| 0 <= k < states.len() implies belongs(g, #[trigger] states[k])
            && !state_before(states, states[k].task_node_id, k) by {
            fitting_state(g, states, 0, k);
        }
        assert forall|i: int, j: int| 0 <= i < j < states.len() implies (
        #[trigger] states[i]).task_node_id != (#[trigger] states[j]).task_node_id by {
            assert(!state_before(states, states[j].task_node_id, j));
        }
    } else {
        let k = unfitting_state(g, states, 0);
        if belongs(g, states[k]) {
            let j = choose|j: int|
                0 <= j < k && (#[trigger] states[j]).task_node_id == states[k].task_node_id;
            assert(states[j].task_node_id == states[k].task_node_id);
        }
    }
}

/// The state is of a node of this revision of the graph, with no more attempts
/// than the node may have.
pub open spec fn belongs(g: GraphView, s: StateView) -> bool {
    &&& s.orchestration_id == g.orchestration_id
    &&& s.graph_revision == g.revision
    &&& exists|i: int|
        0 <= i < g.nodes.len() && (#[trigger] g.nodes[i]).id == s.task_node_id && s.attempt_count
            <= g.nodes[i].limits.max_attempts
}

proof fn belongs_by_position(g: GraphView, s: StateView)
    requires
        nodes_ascend(g.nodes),
    ensures
        belongs(g, s) <==> {
            &&& s.orchestration_id == g.orchestration_id
            &&& s.graph_revision == g.revision
            &&& position(g.nodes, s.task_node_id, 0) matches Some(i) && s.attempt_count
                <= g.nodes[i].limits.max_attempts
        },
{
    position_stands(g.nodes, s.task_node_id, 0);
    if belongs(g, s) {
        let i = choose|i: int|
            0 <= i < g.nodes.len() && (#[trigger] g.nodes[i]).id == s.task_node_id
                && s.attempt_count <= g.nodes[i].limits.max_attempts;
        let p = position(g.nodes, s.task_node_id, 0)->0;
        if i < p {
            assert(g.nodes[i].id.value < g.nodes[p].id.value);
        } else if p < i {
            assert(g.nodes[p].id.value < g.nodes[i].id.value);
        }
    }
}

proof fn fitting_state(g: GraphView, states: Seq<StateView>, from: int, k: int)
    requires
        nodes_ascend(g.nodes),
        first_state_flaw(g, states, from) is None,
        0 <= from <= k < states.len(),
    ensures
        belongs(g, states[k]),
        !state_before(states, states[k].task_node_id, k),
    decreases states.len() - from,
{
    belongs_by_position(g, states[from]);
    if from < k {
        fitting_state(g, states, from + 1, k);
    }
}

proof fn unfitting_state(g: GraphView, states: Seq<StateView>, from: int) -> (k: int)
    requires
        nodes_ascend(g.nodes),
        first_state_flaw(g, states, from) is Some,
        0 <= from,
    ensures
        from <= k < states.len(),
        !belongs(g, states[k]) || state_before(states, states[k].task_node_id, k),
    decreases states.len() - from,
{
    belongs_by_position(g, states[from]);
    if !belongs(g, states[from]) || state_before(states, states[from].task_node_id, from) {
        from
    } else {
        unfitting_state(g, states, from + 1)
    }
}

} // verus!
