//! Graphs of tasks without cycles.

use crate::approval::TimestampMillis;
use crate::context::{ContextDigest, ModelDataPolicy, PolicyView};
use crate::digest::text_digest;
use crate::egress::has_class;
use crate::identity::{PrincipalId, PrincipalView, WorkspaceId};
use crate::ids::{uuid_text, uuid_text_is_injective};
use crate::json::{
    array, item_models, no_fields, no_members, object, plain, put, string, Json, JsonView,
};
use crate::lists::views;
use crate::ordered::all_within;
use crate::orchestration::state::{first_state, StateView, TaskStateRevision};
use crate::orchestration::{
    flaw_of, limit_values_are_told_apart, requirement_values_are_told_apart,
    task_output_kind_names_differ, NodeProposalView, NodeView, OrchestrationError, OrchestrationErrorView,
    OrchestrationId, TaskGraphProposal, TaskNode, TaskNodeId, TaskNodeProposal, TaskNodeState,
    MAX_DEPENDENCIES_PER_NODE, MAX_TASK_NODES,
};
use crate::provider::{
    in_order, in_order_is_ranked, ModelCapabilities, ModelCapability, ModelProfile, ProfileView,
};
use crate::text::str_eq;
use vstd::prelude::*;

verus! {

/// The position, from `i` on, of the node with an identity.
pub open spec fn position(nodes: Seq<NodeView>, id: TaskNodeId, i: int) -> Option<int>
    decreases nodes.len() - i,
{
    if i < 0 || i >= nodes.len() {
        None
    } else if nodes[i].id == id {
        Some(i)
    } else {
        position(nodes, id, i + 1)
    }
}

/// What is found has the identity, and what is not found is not there.
pub proof fn position_stands(nodes: Seq<NodeView>, id: TaskNodeId, i: int)
    requires
        0 <= i,
    ensures
        match position(nodes, id, i) {
            Some(p) => i <= p < nodes.len() && nodes[p].id == id,
            None => forall|k: int| i <= k < nodes.len() ==> (#[trigger] nodes[k]).id != id,
        },
    decreases nodes.len() - i,
{
    if i < nodes.len() && nodes[i].id != id {
        position_stands(nodes, id, i + 1);
    }
}

/// The position of the node with an identity.
pub fn find_node(nodes: &Vec<TaskNode>, id: TaskNodeId) -> (r: Option<usize>)
    ensures
        match r {
            Some(p) => p < nodes@.len() && position(views(nodes@), id, 0) == Some(p as int)
                && nodes@[p as int]@.id == id,
            None => position(views(nodes@), id, 0) is None,
        },
{
    let ghost all = views(nodes@);
    let mut i: usize = 0;
    while i < nodes.len()
        invariant
            i <= nodes@.len(),
            all == views(nodes@),
            position(all, id, 0) == position(all, id, i as int),
        decreases nodes@.len() - i,
    {
        proof {
            assert(all[i as int] == nodes@[i as int]@);
        }
        if nodes[i].id() == id {
            return Some(i);
        }
        i += 1;
    }
    None
}

/// The nodes stand in ascending order of their identities.
pub open spec fn nodes_ascend(nodes: Seq<NodeView>) -> bool {
    forall|i: int, j: int|
        #![trigger nodes[i], nodes[j]]
        0 <= i < j < nodes.len() ==> nodes[i].id.value < nodes[j].id.value
}

/// The first position, from `i` on, whose identity is not less.
pub open spec fn node_slot(nodes: Seq<NodeView>, id: TaskNodeId, i: int) -> int
    decreases nodes.len() - i,
{
    if 0 <= i < nodes.len() && nodes[i].id.value < id.value {
        node_slot(nodes, id, i + 1)
    } else {
        i
    }
}

/// The ascending list with a node in its place, or in place of the one that has
/// its identity.
pub open spec fn with_node(nodes: Seq<NodeView>, n: NodeView) -> Seq<NodeView> {
    let at = node_slot(nodes, n.id, 0);
    if at < nodes.len() && nodes[at].id == n.id {
        nodes.update(at, n)
    } else {
        nodes.insert(at, n)
    }
}

/// The nodes in ascending order; of those with one identity the last.
pub open spec fn node_table(list: Seq<NodeView>) -> Seq<NodeView>
    decreases list.len(),
{
    if list.len() == 0 {
        list
    } else {
        with_node(node_table(list.drop_last()), list.last())
    }
}

proof fn node_slot_parts(nodes: Seq<NodeView>, id: TaskNodeId, i: int)
    requires
        0 <= i <= nodes.len(),
    ensures
        i <= node_slot(nodes, id, i) <= nodes.len(),
        forall|k: int|
            i <= k < node_slot(nodes, id, i) ==> (#[trigger] nodes[k]).id.value < id.value,
        node_slot(nodes, id, i) < nodes.len() ==> nodes[node_slot(nodes, id, i)].id.value
            >= id.value,
    decreases nodes.len() - i,
{
    if i < nodes.len() && nodes[i].id.value < id.value {
        node_slot_parts(nodes, id, i + 1);
    }
}

/// The table of some nodes ascends.
pub proof fn node_table_ascends(list: Seq<NodeView>)
    ensures
        nodes_ascend(node_table(list)),
        node_table(list).len() <= list.len(),
    decreases list.len(),
{
    if list.len() > 0 {
        let h = node_table(list.drop_last());
        let n = list.last();
        node_table_ascends(list.drop_last());
        node_slot_parts(h, n.id, 0);
        let at = node_slot(h, n.id, 0);
        let r = node_table(list);
        assert forall|i: int, j: int|
            #![trigger r[i], r[j]]
            0 <= i < j < r.len() implies r[i].id.value < r[j].id.value by {
            if at < h.len() && h[at].id == n.id {
                assert(h[i].id.value < h[j].id.value);
            } else {
                if j < at {
                    assert(h[i].id.value < h[j].id.value);
                } else if j == at {
                    assert(h[i].id.value < n.id.value);
                } else if i < at {
                    assert(h[i].id.value < h[j - 1].id.value);
                } else if i == at {
                    if j - 1 > at {
                        assert(h[at].id.value < h[j - 1].id.value);
                    }
                } else {
                    assert(h[i - 1].id.value < h[j - 1].id.value);
                }
            }
        }
    }
}

fn add_node(nodes: &mut Vec<TaskNode>, n: TaskNode)
    ensures
        views(final(nodes)@) == with_node(views(old(nodes)@), n@),
{
    let ghost before = views(nodes@);
    let ghost nv = n@;
    let id = n.id();
    let mut at: usize = 0;
    proof {
        node_slot_parts(before, id, 0);
    }
    while at < nodes.len() && nodes[at].id().value < id.value
        invariant
            at <= nodes@.len(),
            before == views(nodes@),
            nodes@ == old(nodes)@,
            node_slot(before, id, 0) == node_slot(before, id, at as int),
        decreases nodes@.len() - at,
    {
        proof {
            assert(before[at as int] == nodes@[at as int]@);
        }
        at += 1;
    }
    proof {
        if at < nodes@.len() {
            assert(before[at as int] == nodes@[at as int]@);
        }
    }
    if at < nodes.len() && nodes[at].id() == id {
        nodes.set(at, n);
        proof {
            assert(views(nodes@) =~= before.update(at as int, nv));
        }
        return;
    }
    nodes.insert(at, n);
    proof {
        assert(views(nodes@) =~= before.insert(at as int, nv));
    }
}

/// The first position, from `i` on, whose identity is not less.
pub open spec fn id_slot(ids: Seq<TaskNodeId>, id: TaskNodeId, i: int) -> int
    decreases ids.len() - i,
{
    if 0 <= i < ids.len() && ids[i].value < id.value {
        id_slot(ids, id, i + 1)
    } else {
        i
    }
}

/// The ascending list with an identity in its place.
pub open spec fn with_id(ids: Seq<TaskNodeId>, id: TaskNodeId) -> Seq<TaskNodeId> {
    ids.insert(id_slot(ids, id, 0), id)
}

proof fn id_slot_range(ids: Seq<TaskNodeId>, id: TaskNodeId, i: int)
    requires
        0 <= i <= ids.len(),
    ensures
        i <= id_slot(ids, id, i) <= ids.len(),
    decreases ids.len() - i,
{
    if i < ids.len() && ids[i].value < id.value {
        id_slot_range(ids, id, i + 1);
    }
}

fn add_id(ids: &mut Vec<TaskNodeId>, id: TaskNodeId)
    ensures
        final(ids)@ == with_id(old(ids)@, id),
{
    let mut at: usize = 0;
    proof {
        id_slot_range(ids@, id, 0);
    }
    while at < ids.len() && ids[at].value < id.value
        invariant
            at <= ids@.len(),
            ids@ == old(ids)@,
            id_slot(ids@, id, 0) == id_slot(ids@, id, at as int),
        decreases ids@.len() - at,
    {
        at += 1;
    }
    ids.insert(at, id);
}

fn has_id(ids: &Vec<TaskNodeId>, id: TaskNodeId) -> (r: bool)
    ensures
        r == ids@.contains(id),
{
    let mut i: usize = 0;
    while i < ids.len()
        invariant
            i <= ids@.len(),
            forall|k: int| 0 <= k < i ==> ids@[k] != id,
        decreases ids@.len() - i,
    {
        if ids[i] == id {
            return true;
        }
        i += 1;
    }
    false
}

/// Why an edge from a node to one that it depends on is refused.
pub open spec fn edge_flaw(
    nodes: Seq<NodeView>,
    deps: Seq<Seq<TaskNodeId>>,
    edge: (TaskNodeId, TaskNodeId),
) -> Option<OrchestrationErrorView> {
    match position(nodes, edge.0, 0) {
        None => Some(OrchestrationErrorView::UnknownTaskNode(edge.0)),
        Some(i) => {
            let task_key = nodes[i].key;
            if position(nodes, edge.1, 0) is None {
                Some(
                    OrchestrationErrorView::UnknownDependencyId {
                        task_key,
                        dependency_id: edge.1,
                    },
                )
            } else if edge.0 == edge.1 {
                Some(OrchestrationErrorView::SelfDependency { task_key })
            } else if deps[i].len() >= MAX_DEPENDENCIES_PER_NODE {
                Some(OrchestrationErrorView::TooManyDependencies { task_key })
            } else if deps[i].contains(edge.1) {
                Some(
                    OrchestrationErrorView::DuplicateDependencyId {
                        task_key,
                        dependency_id: edge.1,
                    },
                )
            } else {
                None
            }
        },
    }
}

/// The dependencies after the edges from `k` on, or why one is refused.
pub open spec fn with_edges(
    nodes: Seq<NodeView>,
    deps: Seq<Seq<TaskNodeId>>,
    edges: Seq<(TaskNodeId, TaskNodeId)>,
    k: int,
) -> Result<Seq<Seq<TaskNodeId>>, OrchestrationErrorView>
    decreases edges.len() - k,
{
    if k < 0 || k >= edges.len() {
        Ok(deps)
    } else if edge_flaw(nodes, deps, edges[k]) is Some {
        Err(edge_flaw(nodes, deps, edges[k])->0)
    } else {
        let i = position(nodes, edges[k].0, 0)->0;
        with_edges(nodes, deps.update(i, with_id(deps[i], edges[k].1)), edges, k + 1)
    }
}

/// No dependencies, for `n` nodes.
pub open spec fn no_dependencies(n: nat) -> Seq<Seq<TaskNodeId>> {
    Seq::new(n, |i: int| Seq::<TaskNodeId>::empty())
}

/// Every dependency is a node.
pub open spec fn dependencies_known(nodes: Seq<NodeView>, deps: Seq<Seq<TaskNodeId>>) -> bool {
    forall|i: int, j: int|
        0 <= i < deps.len() && 0 <= j < deps[i].len() ==> position(
            nodes,
            #[trigger] deps[i][j],
            0,
        ) is Some
}

proof fn edges_are_known(
    nodes: Seq<NodeView>,
    deps: Seq<Seq<TaskNodeId>>,
    edges: Seq<(TaskNodeId, TaskNodeId)>,
    k: int,
)
    requires
        0 <= k,
        deps.len() == nodes.len(),
        dependencies_known(nodes, deps),
    ensures
        with_edges(nodes, deps, edges, k) matches Ok(d) ==> d.len() == nodes.len()
            && dependencies_known(nodes, d),
    decreases edges.len() - k,
{
    if k < edges.len() && edge_flaw(nodes, deps, edges[k]) is None {
        position_stands(nodes, edges[k].0, 0);
        let i = position(nodes, edges[k].0, 0)->0;
        let list = with_id(deps[i], edges[k].1);
        let next = deps.update(i, list);
        id_slot_range(deps[i], edges[k].1, 0);
        let at = id_slot(deps[i], edges[k].1, 0);
        assert forall|a: int, b: int| 0 <= a < next.len() && 0 <= b < next[a].len() implies position(
            nodes,
            #[trigger] next[a][b],
            0,
        ) is Some by {
            if a == i {
                if b < at {
                    assert(list[b] == deps[i][b]);
                } else if b > at {
                    assert(list[b] == deps[i][b - 1]);
                }
            } else {
                assert(next[a][b] == deps[a][b]);
            }
        }
        edges_are_known(nodes, next, edges, k + 1);
    }
}

/// A deadline at or before the time at which the graph is made.
pub open spec fn deadline_passed(d: Option<TimestampMillis>, now: TimestampMillis) -> bool {
    d matches Some(t) && t.value <= now.value
}

fn is_deadline_passed(d: Option<TimestampMillis>, now: TimestampMillis) -> (r: bool)
    ensures
        r == deadline_passed(d, now),
{
    match d {
        Some(t) => t.value <= now.value,
        None => false,
    }
}

/// Some node before `k` has the given name.
pub open spec fn name_taken(nodes: Seq<NodeView>, key: Seq<char>, k: int) -> bool {
    exists|j: int| 0 <= j < k && (#[trigger] nodes[j]).key == key
}

/// The first reason, from node `k` on, why a node is refused.
pub open spec fn first_node_flaw(nodes: Seq<NodeView>, now: TimestampMillis, k: int) -> Option<
    OrchestrationErrorView,
>
    decreases nodes.len() - k,
{
    if k < 0 || k >= nodes.len() {
        None
    } else if nodes[k].flaw() is Some {
        nodes[k].flaw()
    } else if name_taken(nodes, nodes[k].key, k) {
        Some(OrchestrationErrorView::DuplicateTaskKey(nodes[k].key))
    } else if deadline_passed(nodes[k].deadline_at, now) {
        Some(OrchestrationErrorView::InvalidDeadline { task_key: nodes[k].key })
    } else {
        first_node_flaw(nodes, now, k + 1)
    }
}

fn check_nodes(nodes: &Vec<TaskNode>, now: TimestampMillis) -> (r: Result<(), OrchestrationError>)
    ensures
        flaw_of(r) == first_node_flaw(views(nodes@), now, 0),
{
    let ghost all = views(nodes@);
    let mut k: usize = 0;
    while k < nodes.len()
        invariant
            k <= nodes@.len(),
            all == views(nodes@),
            first_node_flaw(all, now, 0) == first_node_flaw(all, now, k as int),
        decreases nodes@.len() - k,
    {
        proof {
            assert(all[k as int] == nodes@[k as int]@);
        }
        match nodes[k].validate() {
            Ok(()) => {},
            Err(e) => {
                return Err(e);
            },
        }
        let mut j: usize = 0;
        while j < k
            invariant
                j <= k < nodes@.len(),
                all == views(nodes@),
                all[k as int] == nodes@[k as int]@,
                all[k as int].flaw() is None,
                first_node_flaw(all, now, 0) == first_node_flaw(all, now, k as int),
                forall|i: int| 0 <= i < j ==> (#[trigger] all[i]).key != all[k as int].key,
            decreases k - j,
        {
            proof {
                assert(all[j as int] == nodes@[j as int]@);
            }
            if str_eq(nodes[j].key().as_str(), nodes[k].key().as_str()) {
                return Err(OrchestrationError::DuplicateTaskKey(nodes[k].key().clone()));
            }
            j += 1;
        }
        if is_deadline_passed(nodes[k].deadline_at(), now) {
            return Err(
                OrchestrationError::InvalidDeadline { task_key: nodes[k].key().clone() },
            );
        }
        k += 1;
    }
    Ok(())
}

/// A node that was not taken yet and whose dependencies all were.
pub open spec fn is_ready(
    nodes: Seq<NodeView>,
    deps: Seq<Seq<TaskNodeId>>,
    done: Seq<TaskNodeId>,
    i: int,
) -> bool {
    !done.contains(nodes[i].id) && forall|j: int|
        0 <= j < deps[i].len() ==> done.contains(#[trigger] deps[i][j])
}

/// The first node, from `i` on, that is ready.
pub open spec fn next_ready(
    nodes: Seq<NodeView>,
    deps: Seq<Seq<TaskNodeId>>,
    done: Seq<TaskNodeId>,
    i: int,
) -> Option<int>
    decreases nodes.len() - i,
{
    if i < 0 || i >= nodes.len() {
        None
    } else if is_ready(nodes, deps, done, i) {
        Some(i)
    } else {
        next_ready(nodes, deps, done, i + 1)
    }
}

/// What is taken after `done` in at most `fuel` steps, each of which takes the
/// first node that is ready.
pub open spec fn taken(
    nodes: Seq<NodeView>,
    deps: Seq<Seq<TaskNodeId>>,
    done: Seq<TaskNodeId>,
    fuel: nat,
) -> Seq<TaskNodeId>
    decreases fuel,
{
    if fuel == 0 {
        done
    } else {
        match next_ready(nodes, deps, done, 0) {
            None => done,
            Some(i) => taken(nodes, deps, done.push(nodes[i].id), (fuel - 1) as nat),
        }
    }
}

/// The nodes in the order in which they become ready. In a graph with a cycle
/// some are left out.
pub open spec fn order_of(nodes: Seq<NodeView>, deps: Seq<Seq<TaskNodeId>>) -> Seq<TaskNodeId> {
    taken(nodes, deps, Seq::empty(), nodes.len())
}

/// The identities differ.
pub open spec fn ids_distinct(nodes: Seq<NodeView>) -> bool {
    forall|i: int, j: int|
        #![trigger nodes[i], nodes[j]]
        0 <= i < j < nodes.len() ==> nodes[i].id != nodes[j].id
}

fn dependency_positions(nodes: &Vec<TaskNode>, deps: &Vec<Vec<TaskNodeId>>) -> (r: Vec<
    Vec<usize>,
>)
    requires
        deps@.len() == nodes@.len(),
        dependencies_known(views(nodes@), views(deps@)),
    ensures
        r@.len() == deps@.len(),
        forall|i: int|
            0 <= i < deps@.len() ==> (#[trigger] r@[i])@.len() == deps@[i]@.len(),
        forall|i: int, j: int|
            0 <= i < deps@.len() && 0 <= j < deps@[i]@.len() ==> (#[trigger] r@[i]@[j])
                < nodes@.len() && nodes@[r@[i]@[j] as int]@.id == deps@[i]@[j],
{
    let ghost dv = views(deps@);
    let mut out: Vec<Vec<usize>> = Vec::new();
    let mut i: usize = 0;
    while i < deps.len()
        invariant
            i <= deps@.len(),
            dv == views(deps@),
            dependencies_known(views(nodes@), dv),
            out@.len() == i,
            forall|a: int| 0 <= a < i ==> (#[trigger] out@[a])@.len() == deps@[a]@.len(),
            forall|a: int, b: int|
                0 <= a < i && 0 <= b < deps@[a]@.len() ==> (#[trigger] out@[a]@[b]) < nodes@.len()
                    && nodes@[out@[a]@[b] as int]@.id == deps@[a]@[b],
        decreases deps@.len() - i,
    {
        let mut row: Vec<usize> = Vec::new();
        let mut j: usize = 0;
        while j < deps[i].len()
            invariant
                i < deps@.len(),
                j <= deps@[i as int]@.len(),
                dv == views(deps@),
                dependencies_known(views(nodes@), dv),
                row@.len() == j,
                forall|b: int|
                    0 <= b < j ==> (#[trigger] row@[b]) < nodes@.len() && nodes@[row@[b] as int]@.id
                        == deps@[i as int]@[b],
            decreases deps@[i as int]@.len() - j,
        {
            proof {
                assert(dv[i as int][j as int] == deps@[i as int]@[j as int]);
            }
            match find_node(nodes, deps[i][j]) {
                Some(p) => {
                    row.push(p);
                },
                None => {},
            }
            j += 1;
        }
        out.push(row);
        i += 1;
    }
    out
}

fn all_set(flags: &Vec<bool>, at: &Vec<usize>) -> (r: bool)
    requires
        forall|k: int| 0 <= k < at@.len() ==> (#[trigger] at@[k]) < flags@.len(),
    ensures
        r <==> forall|k: int| 0 <= k < at@.len() ==> flags@[(#[trigger] at@[k]) as int],
{
    let mut i: usize = 0;
    while i < at.len()
        invariant
            i <= at@.len(),
            forall|k: int| 0 <= k < at@.len() ==> (#[trigger] at@[k]) < flags@.len(),
            forall|k: int| 0 <= k < i ==> flags@[(#[trigger] at@[k]) as int],
        decreases at@.len() - i,
    {
        if !flags[at[i]] {
            return false;
        }
        i += 1;
    }
    true
}

/// `at` holds the positions of the dependencies, and `flags` says which nodes
/// stand in `order`.
spec fn mirrors(
    nodes: Seq<TaskNode>,
    deps: Seq<Vec<TaskNodeId>>,
    at: Seq<Vec<usize>>,
    flags: Seq<bool>,
    order: Seq<TaskNodeId>,
) -> bool {
    &&& deps.len() == nodes.len()
    &&& at.len() == deps.len()
    &&& forall|i: int| 0 <= i < deps.len() ==> (#[trigger] at[i])@.len() == deps[i]@.len()
    &&& forall|i: int, j: int|
        0 <= i < deps.len() && 0 <= j < deps[i]@.len() ==> (#[trigger] at[i]@[j]) < nodes.len()
            && nodes[at[i]@[j] as int]@.id == deps[i]@[j]
    &&& flags.len() == nodes.len()
    &&& forall|k: int|
        0 <= k < nodes.len() ==> (#[trigger] flags[k] <==> order.contains(nodes[k]@.id))
}

fn find_ready(
    nodes: &Vec<TaskNode>,
    deps: &Vec<Vec<TaskNodeId>>,
    at: &Vec<Vec<usize>>,
    flags: &Vec<bool>,
    order: &Vec<TaskNodeId>,
) -> (r: Option<usize>)
    requires
        mirrors(nodes@, deps@, at@, flags@, order@),
    ensures
        match r {
            Some(i) => i < nodes@.len() && next_ready(views(nodes@), views(deps@), order@, 0)
                == Some(i as int),
            None => next_ready(views(nodes@), views(deps@), order@, 0) is None,
        },
{
    let ghost nv = views(nodes@);
    let ghost dv = views(deps@);
    let mut i: usize = 0;
    while i < nodes.len()
        invariant
            i <= nodes@.len(),
            nv == views(nodes@),
            dv == views(deps@),
            mirrors(nodes@, deps@, at@, flags@, order@),
            next_ready(nv, dv, order@, 0) == next_ready(nv, dv, order@, i as int),
        decreases nodes@.len() - i,
    {
        proof {
            assert(nv[i as int] == nodes@[i as int]@);
            assert(dv[i as int] == deps@[i as int]@);
            assert(at@[i as int]@.len() == deps@[i as int]@.len());
        }
        if !flags[i] && all_set(flags, &at[i]) {
            proof {
                assert forall|j: int| 0 <= j < dv[i as int].len() implies order@.contains(
                    #[trigger] dv[i as int][j],
                ) by {
                    let p = at@[i as int]@[j];
                    assert(flags@[p as int]);
                }
                assert(is_ready(nv, dv, order@, i as int));
            }
            return Some(i);
        }
        proof {
            if !flags@[i as int] {
                let j = choose|j: int|
                    0 <= j < at@[i as int]@.len() && !flags@[(
                    #[trigger] at@[i as int]@[j]) as int];
                let p = at@[i as int]@[j];
                assert(nodes@[p as int]@.id == dv[i as int][j]);
                assert(!order@.contains(dv[i as int][j]));
            }
            assert(!is_ready(nv, dv, order@, i as int));
        }
        i += 1;
    }
    None
}

fn topological_order(nodes: &Vec<TaskNode>, deps: &Vec<Vec<TaskNodeId>>) -> (r: Vec<TaskNodeId>)
    requires
        deps@.len() == nodes@.len(),
        dependencies_known(views(nodes@), views(deps@)),
        ids_distinct(views(nodes@)),
    ensures
        r@ == order_of(views(nodes@), views(deps@)),
{
    let ghost nv = views(nodes@);
    let ghost dv = views(deps@);
    let at = dependency_positions(nodes, deps);
    let mut flags: Vec<bool> = Vec::new();
    let mut f: usize = 0;
    while f < nodes.len()
        invariant
            f <= nodes@.len(),
            flags@.len() == f,
            forall|k: int| 0 <= k < f ==> !(#[trigger] flags@[k]),
        decreases nodes@.len() - f,
    {
        flags.push(false);
        f += 1;
    }
    let mut order: Vec<TaskNodeId> = Vec::new();
    let mut fuel: usize = nodes.len();
    proof {
        assert(order@ =~= Seq::<TaskNodeId>::empty());
    }
    while fuel > 0
        invariant
            fuel <= nodes@.len(),
            nv == views(nodes@),
            dv == views(deps@),
            ids_distinct(nv),
            mirrors(nodes@, deps@, at@, flags@, order@),
            order_of(nv, dv) == taken(nv, dv, order@, fuel as nat),
        decreases fuel,
    {
        let i = match find_ready(nodes, deps, &at, &flags, &order) {
            Some(i) => i,
            None => {
                return order;
            },
        };
        let ghost before = order@;
        let ghost was = flags@;
        order.push(nodes[i].id());
        flags.set(i, true);
        proof {
            assert(nv[i as int] == nodes@[i as int]@);
            assert forall|k: int| 0 <= k < nodes@.len() implies (#[trigger] flags@[k]
                <==> order@.contains(nodes@[k]@.id)) by {
                assert(nv[k] == nodes@[k]@);
                if k == i {
                    assert(order@[before.len() as int] == nodes@[k]@.id);
                } else {
                    assert(nv[k].id != nv[i as int].id);
                    assert(was[k] <==> before.contains(nodes@[k]@.id));
                    if before.contains(nv[k].id) {
                        let m = choose|m: int| 0 <= m < before.len() && before[m] == nv[k].id;
                        assert(order@[m] == nv[k].id);
                    }
                    if order@.contains(nv[k].id) {
                        let m = choose|m: int| 0 <= m < order@.len() && order@[m] == nv[k].id;
                        assert(before[m] == nv[k].id);
                    }
                }
            }
        }
        fuel -= 1;
    }
    order
}

/// At place `k` of an order stands a node that does not stand before, behind
/// all that it depends on.
pub open spec fn placed_well(
    nodes: Seq<NodeView>,
    deps: Seq<Seq<TaskNodeId>>,
    o: Seq<TaskNodeId>,
    k: int,
) -> bool {
    !o.take(k).contains(o[k]) && exists|i: int|
        0 <= i < nodes.len() && (#[trigger] nodes[i]).id == o[k] && forall|j: int|
            0 <= j < deps[i].len() ==> o.take(k).contains(#[trigger] deps[i][j])
}

/// Each node of the order stands once, behind all that it depends on.
pub open spec fn is_topological(
    nodes: Seq<NodeView>,
    deps: Seq<Seq<TaskNodeId>>,
    o: Seq<TaskNodeId>,
) -> bool {
    forall|k: int| 0 <= k < o.len() ==> #[trigger] placed_well(nodes, deps, o, k)
}

proof fn next_ready_parts(
    nodes: Seq<NodeView>,
    deps: Seq<Seq<TaskNodeId>>,
    done: Seq<TaskNodeId>,
    from: int,
)
    requires
        0 <= from,
    ensures
        match next_ready(nodes, deps, done, from) {
            Some(i) => from <= i < nodes.len() && is_ready(nodes, deps, done, i),
            None => forall|i: int|
                from <= i < nodes.len() ==> !is_ready(nodes, deps, done, i),
        },
    decreases nodes.len() - from,
{
    if from < nodes.len() && !is_ready(nodes, deps, done, from) {
        next_ready_parts(nodes, deps, done, from + 1);
    }
}

proof fn taken_parts(
    nodes: Seq<NodeView>,
    deps: Seq<Seq<TaskNodeId>>,
    done: Seq<TaskNodeId>,
    fuel: nat,
)
    requires
        is_topological(nodes, deps, done),
    ensures
        ({
            let o = taken(nodes, deps, done, fuel);
            &&& is_topological(nodes, deps, o)
            &&& o.len() <= done.len() + fuel
            &&& (o.len() == done.len() + fuel || forall|i: int|
                0 <= i < nodes.len() ==> !#[trigger] is_ready(nodes, deps, o, i))
        }),
    decreases fuel,
{
    next_ready_parts(nodes, deps, done, 0);
    if fuel > 0 && next_ready(nodes, deps, done, 0) is Some {
        let i = next_ready(nodes, deps, done, 0)->0;
        let next = done.push(nodes[i].id);
        assert forall|k: int| 0 <= k < next.len() implies #[trigger] placed_well(
            nodes,
            deps,
            next,
            k,
        ) by {
            if k < done.len() {
                assert(placed_well(nodes, deps, done, k));
                assert(next.take(k) =~= done.take(k));
            } else {
                assert(next.take(k) =~= done);
                assert(nodes[i].id == next[k]);
            }
        }
        taken_parts(nodes, deps, next, (fuel - 1) as nat);
    }
}

/// Each node of the order stands once, behind all that it depends on.
pub proof fn order_is_topological(nodes: Seq<NodeView>, deps: Seq<Seq<TaskNodeId>>)
    ensures
        is_topological(nodes, deps, order_of(nodes, deps)),
        order_of(nodes, deps).len() <= nodes.len(),
{
    taken_parts(nodes, deps, Seq::empty(), nodes.len());
}

/// Every node has a rank above those of the nodes that it depends on.
pub open spec fn ranks(
    nodes: Seq<NodeView>,
    deps: Seq<Seq<TaskNodeId>>,
    rank: spec_fn(TaskNodeId) -> nat,
) -> bool {
    forall|i: int, j: int|
        0 <= i < nodes.len() && 0 <= j < deps[i].len() ==> rank(#[trigger] deps[i][j]) < rank(
            nodes[i].id,
        )
}

/// No node depends on itself, directly or through others: the nodes can be
/// ranked.
pub open spec fn acyclic(nodes: Seq<NodeView>, deps: Seq<Seq<TaskNodeId>>) -> bool {
    exists|rank: spec_fn(TaskNodeId) -> nat| #[trigger] ranks(nodes, deps, rank)
}

/// The identities of the nodes.
pub open spec fn node_ids(nodes: Seq<NodeView>) -> Seq<TaskNodeId> {
    nodes.map_values(|n: NodeView| n.id)
}

proof fn topological_members(
    nodes: Seq<NodeView>,
    deps: Seq<Seq<TaskNodeId>>,
    o: Seq<TaskNodeId>,
)
    requires
        is_topological(nodes, deps, o),
        ids_distinct(nodes),
    ensures
        o.no_duplicates(),
        node_ids(nodes).no_duplicates(),
        o.to_set().subset_of(node_ids(nodes).to_set()),
{
    let ids = node_ids(nodes);
    assert forall|a: int, b: int| 0 <= a < o.len() && 0 <= b < o.len() && a != b implies o[a]
        != o[b] by {
        let (x, y) = if a < b {
            (a, b)
        } else {
            (b, a)
        };
        assert(placed_well(nodes, deps, o, y));
        assert(o.take(y)[x] == o[x]);
    }
    assert forall|a: int, b: int| 0 <= a < ids.len() && 0 <= b < ids.len() && a != b implies ids[a]
        != ids[b] by {
        if a < b {
            assert(nodes[a].id != nodes[b].id);
        } else {
            assert(nodes[b].id != nodes[a].id);
        }
    }
    assert forall|x: TaskNodeId| o.to_set().contains(x) implies ids.to_set().contains(x) by {
        let k = choose|k: int| 0 <= k < o.len() && o[k] == x;
        assert(placed_well(nodes, deps, o, k));
        let i = choose|i: int| 0 <= i < nodes.len() && (#[trigger] nodes[i]).id == o[k];
        assert(ids[i] == x);
    }
}

proof fn full_order_holds_all(
    nodes: Seq<NodeView>,
    deps: Seq<Seq<TaskNodeId>>,
    o: Seq<TaskNodeId>,
    i: int,
)
    requires
        is_topological(nodes, deps, o),
        ids_distinct(nodes),
        o.len() == nodes.len(),
        0 <= i < nodes.len(),
    ensures
        o.contains(nodes[i].id),
{
    let ids = node_ids(nodes);
    topological_members(nodes, deps, o);
    o.unique_seq_to_set();
    ids.unique_seq_to_set();
    broadcast use vstd::seq_lib::seq_to_set_is_finite;

    vstd::set_lib::lemma_subset_equality(o.to_set(), ids.to_set());
    assert(ids[i] == nodes[i].id);
    assert(ids.to_set().contains(nodes[i].id));
    assert(o.to_set().contains(nodes[i].id));
}

proof fn short_order_misses_one(
    nodes: Seq<NodeView>,
    deps: Seq<Seq<TaskNodeId>>,
    o: Seq<TaskNodeId>,
) -> (i: int)
    requires
        is_topological(nodes, deps, o),
        ids_distinct(nodes),
        o.len() < nodes.len(),
    ensures
        0 <= i < nodes.len(),
        !o.contains(nodes[i].id),
{
    let ids = node_ids(nodes);
    topological_members(nodes, deps, o);
    if forall|i: int| 0 <= i < nodes.len() ==> o.contains(#[trigger] nodes[i].id) {
        o.unique_seq_to_set();
        ids.unique_seq_to_set();
        broadcast use vstd::seq_lib::seq_to_set_is_finite;

        assert forall|x: TaskNodeId| ids.to_set().contains(x) implies o.to_set().contains(x) by {
            let k = choose|k: int| 0 <= k < ids.len() && ids[k] == x;
            assert(o.contains(nodes[k].id));
        }
        vstd::set_lib::lemma_len_subset(ids.to_set(), o.to_set());
    }
    choose|i: int| 0 <= i < nodes.len() && !o.contains(#[trigger] nodes[i].id)
}

proof fn ranked_nodes_are_taken(
    nodes: Seq<NodeView>,
    deps: Seq<Seq<TaskNodeId>>,
    o: Seq<TaskNodeId>,
    rank: spec_fn(TaskNodeId) -> nat,
    i: int,
)
    requires
        deps.len() == nodes.len(),
        dependencies_known(nodes, deps),
        ranks(nodes, deps, rank),
        forall|k: int| 0 <= k < nodes.len() ==> !#[trigger] is_ready(nodes, deps, o, k),
        0 <= i < nodes.len(),
    ensures
        o.contains(nodes[i].id),
    decreases rank(nodes[i].id),
{
    assert(!is_ready(nodes, deps, o, i));
    if !o.contains(nodes[i].id) {
        let j = choose|j: int| 0 <= j < deps[i].len() && !o.contains(#[trigger] deps[i][j]);
        let d = deps[i][j];
        position_stands(nodes, d, 0);
        let p = position(nodes, d, 0)->0;
        assert(rank(deps[i][j]) < rank(nodes[i].id));
        ranked_nodes_are_taken(nodes, deps, o, rank, p);
    }
}

/// All nodes find a place in the order if and only if the graph has no cycle.
pub proof fn orders_are_full_without_cycles(nodes: Seq<NodeView>, deps: Seq<Seq<TaskNodeId>>)
    requires
        nodes_ascend(nodes),
        deps.len() == nodes.len(),
        dependencies_known(nodes, deps),
    ensures
        order_of(nodes, deps).len() == nodes.len() <==> acyclic(nodes, deps),
{
    let o = order_of(nodes, deps);
    order_is_topological(nodes, deps);
    taken_parts(nodes, deps, Seq::empty(), nodes.len());
    assert(ids_distinct(nodes));
    if o.len() == nodes.len() {
        let rank: spec_fn(TaskNodeId) -> nat = |id: TaskNodeId|
            if o.contains(id) {
                o.index_of(id) as nat
            } else {
                0
            };
        assert forall|i: int, j: int| 0 <= i < nodes.len() && 0 <= j < deps[i].len() implies rank(
            #[trigger] deps[i][j],
        ) < rank(nodes[i].id) by {
            full_order_holds_all(nodes, deps, o, i);
            let k = o.index_of(nodes[i].id);
            assert(0 <= k < o.len() && o[k] == nodes[i].id);
            assert(placed_well(nodes, deps, o, k));
            let m = choose|m: int|
                0 <= m < nodes.len() && (#[trigger] nodes[m]).id == o[k] && forall|q: int|
                    0 <= q < deps[m].len() ==> o.take(k).contains(#[trigger] deps[m][q]);
            assert(m == i);
            assert(o.take(k).contains(deps[i][j]));
            let a = choose|a: int| 0 <= a < k && o.take(k)[a] == deps[i][j];
            assert(o[a] == deps[i][j]);
            let b = o.index_of(deps[i][j]);
            assert(0 <= b < o.len() && o[b] == deps[i][j]);
            topological_members(nodes, deps, o);
            assert(a == b);
        }
        assert(ranks(nodes, deps, rank));
    } else if acyclic(nodes, deps) {
        let rank = choose|rank: spec_fn(TaskNodeId) -> nat| #[trigger] ranks(nodes, deps, rank);
        let i = short_order_misses_one(nodes, deps, o);
        ranked_nodes_are_taken(nodes, deps, o, rank, i);
    }
}

/// A graph of tasks without cycles. The dependencies of a node stand at its
/// position.
#[derive(Debug, PartialEq, Eq)]
pub struct TaskGraph {
    orchestration_id: OrchestrationId,
    workspace_id: WorkspaceId,
    revision: u64,
    created_by: PrincipalId,
    created_at: TimestampMillis,
    nodes: Vec<TaskNode>,
    dependencies: Vec<Vec<TaskNodeId>>,
    digest: ContextDigest,
}

/// The model of a `TaskGraph`.
pub struct GraphView {
    pub orchestration_id: OrchestrationId,
    pub workspace_id: WorkspaceId,
    pub revision: u64,
    pub created_by: PrincipalView,
    pub created_at: TimestampMillis,
    pub nodes: Seq<NodeView>,
    pub dependencies: Seq<Seq<TaskNodeId>>,
    pub digest: Seq<char>,
}

impl View for TaskGraph {
    type V = GraphView;

    closed spec fn view(&self) -> GraphView {
        GraphView {
            orchestration_id: self.orchestration_id,
            workspace_id: self.workspace_id,
            revision: self.revision,
            created_by: self.created_by@,
            created_at: self.created_at,
            nodes: views(self.nodes@),
            dependencies: views(self.dependencies@),
            digest: self.digest@,
        }
    }
}

/// The JSON values of some identities.
pub open spec fn id_items(ids: Seq<TaskNodeId>) -> Seq<JsonView> {
    ids.map_values(|x: TaskNodeId| JsonView::Str(uuid_text(x.value)))
}

/// The JSON value of a node.
pub open spec fn node_json(n: NodeView, deps: Seq<TaskNodeId>) -> JsonView {
    JsonView::Object(
        no_fields().push(("node_id"@, JsonView::Str(uuid_text(n.id.value)))).push(
            ("task_key"@, JsonView::Str(n.key)),
        ).push(("description"@, JsonView::Str(n.description))).push(
            ("expected_output"@, JsonView::Str(n.expected_output.name())),
        ).push(("dependencies"@, JsonView::Array(id_items(deps)))).push(
            ("requirements"@, n.requirements.json()),
        ).push(("limits"@, n.limits.json())).push(
            (
                "deadline_at"@,
                match n.deadline_at {
                    Some(t) => JsonView::Int(t.value as int),
                    None => JsonView::Null,
                },
            ),
        ),
    )
}

/// The JSON values of the nodes.
pub open spec fn node_items(nodes: Seq<NodeView>, deps: Seq<Seq<TaskNodeId>>) -> Seq<JsonView> {
    Seq::new(nodes.len(), |i: int| node_json(nodes[i], deps[i]))
}

impl GraphView {
    /// The JSON value whose text is digested: all but the digest.
    pub open spec fn json(self) -> JsonView {
        JsonView::Object(
            no_fields().push(("schema_version"@, JsonView::Int(1))).push(
                ("orchestration_id"@, JsonView::Str(uuid_text(self.orchestration_id.value))),
            ).push(("workspace_id"@, JsonView::Str(uuid_text(self.workspace_id.value)))).push(
                ("revision"@, JsonView::Int(self.revision as int)),
            ).push(("created_by_provider"@, JsonView::Str(self.created_by.provider))).push(
                ("created_by_subject"@, JsonView::Str(self.created_by.subject)),
            ).push(("created_at"@, JsonView::Int(self.created_at.value as int))).push(
                ("nodes"@, JsonView::Array(node_items(self.nodes, self.dependencies))),
            ),
        )
    }

    /// The digest of the content.
    pub open spec fn content_digest(self) -> Seq<char> {
        text_digest(plain(self.json()))
    }

    /// The nodes ascend, what they depend on are nodes, and there is no cycle.
    pub open spec fn wf(self) -> bool {
        &&& self.revision > 0
        &&& nodes_ascend(self.nodes)
        &&& self.dependencies.len() == self.nodes.len()
        &&& dependencies_known(self.nodes, self.dependencies)
        &&& order_of(self.nodes, self.dependencies).len() == self.nodes.len()
    }
}

fn node_to_json(n: &TaskNode, deps: &Vec<TaskNodeId>) -> (r: Json)
    ensures
        r@ == node_json(n@, deps@),
{
    let mut list: Vec<Json> = Vec::new();
    let mut i: usize = 0;
    while i < deps.len()
        invariant
            i <= deps@.len(),
            list@.len() == i,
            forall|k: int|
                0 <= k < i ==> (#[trigger] list@[k])@ == JsonView::Str(uuid_text(deps@[k].value)),
        decreases deps@.len() - i,
    {
        list.push(Json::Str(deps[i].to_text()));
        i += 1;
    }
    proof {
        assert(item_models(list@) =~= id_items(deps@));
    }
    let mut m = no_members();
    put(&mut m, "node_id", Json::Str(n.id().to_text()));
    put(&mut m, "task_key", string(n.key().as_str()));
    put(&mut m, "description", string(n.description()));
    put(&mut m, "expected_output", string(n.expected_output().as_str()));
    put(&mut m, "dependencies", array(list));
    put(&mut m, "requirements", n.requirements().to_json());
    put(&mut m, "limits", n.limits().to_json());
    put(
        &mut m,
        "deadline_at",
        match n.deadline_at() {
            Some(t) => Json::UInt(t.value),
            None => Json::Null,
        },
    );
    object(m)
}

fn graph_digest(
    orchestration_id: OrchestrationId,
    workspace_id: WorkspaceId,
    revision: u64,
    created_by: &PrincipalId,
    created_at: TimestampMillis,
    nodes: &Vec<TaskNode>,
    dependencies: &Vec<Vec<TaskNodeId>>,
) -> (r: ContextDigest)
    requires
        dependencies@.len() == nodes@.len(),
    ensures
        r@ == (GraphView {
            orchestration_id,
            workspace_id,
            revision,
            created_by: created_by@,
            created_at,
            nodes: views(nodes@),
            dependencies: views(dependencies@),
            digest: Seq::empty(),
        }).content_digest(),
{
    let mut list: Vec<Json> = Vec::new();
    let mut i: usize = 0;
    while i < nodes.len()
        invariant
            i <= nodes@.len(),
            dependencies@.len() == nodes@.len(),
            list@.len() == i,
            forall|k: int|
                0 <= k < i ==> (#[trigger] list@[k])@ == node_json(nodes@[k]@, dependencies@[k]@),
        decreases nodes@.len() - i,
    {
        list.push(node_to_json(&nodes[i], &dependencies[i]));
        i += 1;
    }
    proof {
        assert(item_models(list@) =~= node_items(views(nodes@), views(dependencies@)));
    }
    let mut m = no_members();
    put(&mut m, "schema_version", Json::Int(1));
    put(&mut m, "orchestration_id", Json::Str(orchestration_id.to_text()));
    put(&mut m, "workspace_id", Json::Str(workspace_id.to_text()));
    put(&mut m, "revision", Json::UInt(revision));
    put(&mut m, "created_by_provider", string(created_by.provider()));
    put(&mut m, "created_by_subject", string(created_by.subject()));
    put(&mut m, "created_at", Json::UInt(created_at.value));
    put(&mut m, "nodes", array(list));
    let text = object(m).to_text();
    ContextDigest::from_text(text.as_str())
}

/// The graph of some nodes in ascending order and their edges, or why there is
/// none. With `expected` it must have that digest.
pub open spec fn materialized(
    orchestration_id: OrchestrationId,
    workspace_id: WorkspaceId,
    revision: u64,
    created_by: PrincipalView,
    created_at: TimestampMillis,
    nodes: Seq<NodeView>,
    edges: Seq<(TaskNodeId, TaskNodeId)>,
    expected: Option<Seq<char>>,
) -> Result<GraphView, OrchestrationErrorView> {
    if revision == 0 {
        Err(OrchestrationErrorView::InvalidGraphRevision)
    } else if nodes.len() == 0 || nodes.len() > MAX_TASK_NODES {
        Err(OrchestrationErrorView::InvalidTaskCount)
    } else if first_node_flaw(nodes, created_at, 0) is Some {
        Err(first_node_flaw(nodes, created_at, 0)->0)
    } else {
        match with_edges(nodes, no_dependencies(nodes.len()), edges, 0) {
            Err(e) => Err(e),
            Ok(dependencies) => if order_of(nodes, dependencies).len() != nodes.len() {
                Err(OrchestrationErrorView::CycleDetected)
            } else {
                let g = GraphView {
                    orchestration_id,
                    workspace_id,
                    revision,
                    created_by,
                    created_at,
                    nodes,
                    dependencies,
                    digest: Seq::empty(),
                };
                if expected is Some && expected->0 != g.content_digest() {
                    Err(OrchestrationErrorView::DigestMismatch)
                } else {
                    Ok(GraphView { digest: g.content_digest(), ..g })
                }
            },
        }
    }
}

/// Every graph is well formed, without a cycle, and has the digest of its
/// content.
pub proof fn graphs_are_well_formed(
    orchestration_id: OrchestrationId,
    workspace_id: WorkspaceId,
    revision: u64,
    created_by: PrincipalView,
    created_at: TimestampMillis,
    nodes: Seq<NodeView>,
    edges: Seq<(TaskNodeId, TaskNodeId)>,
    expected: Option<Seq<char>>,
)
    requires
        nodes_ascend(nodes),
    ensures
        materialized(
            orchestration_id,
            workspace_id,
            revision,
            created_by,
            created_at,
            nodes,
            edges,
            expected,
        ) matches Ok(g) ==> {
            &&& g.wf()
            &&& g.digest == g.content_digest()
            &&& acyclic(g.nodes, g.dependencies)
            &&& 0 < g.nodes.len() <= MAX_TASK_NODES
        },
{
    let none = no_dependencies(nodes.len());
    assert(dependencies_known(nodes, none));
    edges_are_known(nodes, none, edges, 0);
    if let Ok(d) = with_edges(nodes, none, edges, 0) {
        orders_are_full_without_cycles(nodes, d);
    }
}

/// The model of a graph, or why there is none.
pub open spec fn graph_view(r: Result<TaskGraph, OrchestrationError>) -> Result<
    GraphView,
    OrchestrationErrorView,
> {
    match r {
        Ok(g) => Ok(g@),
        Err(e) => Err(e@),
    }
}

/// The graph of stored nodes and edges, or why there is none.
pub open spec fn stored_graph(
    orchestration_id: OrchestrationId,
    workspace_id: WorkspaceId,
    revision: u64,
    created_by: PrincipalView,
    created_at: TimestampMillis,
    nodes: Seq<NodeView>,
    edges: Seq<(TaskNodeId, TaskNodeId)>,
    expected: Seq<char>,
) -> Result<GraphView, OrchestrationErrorView> {
    if node_table(nodes).len() != nodes.len() {
        Err(OrchestrationErrorView::DuplicateTaskNodeId)
    } else {
        materialized(
            orchestration_id,
            workspace_id,
            revision,
            created_by,
            created_at,
            node_table(nodes),
            edges,
            Some(expected),
        )
    }
}

/// Some proposed node before `k` has the given name.
pub open spec fn proposed_before(p: Seq<NodeProposalView>, key: Seq<char>, k: int) -> bool {
    exists|j: int| 0 <= j < k && (#[trigger] p[j]).key == key
}

/// The first reason, from node `k` on, why a proposed node is refused.
pub open spec fn first_proposal_flaw(
    p: Seq<NodeProposalView>,
    now: TimestampMillis,
    k: int,
) -> Option<OrchestrationErrorView>
    decreases p.len() - k,
{
    if k < 0 || k >= p.len() {
        None
    } else if p[k].flaw() is Some {
        p[k].flaw()
    } else if deadline_passed(p[k].deadline_at, now) {
        Some(OrchestrationErrorView::InvalidDeadline { task_key: p[k].key })
    } else if proposed_before(p, p[k].key, k) {
        Some(OrchestrationErrorView::DuplicateTaskKey(p[k].key))
    } else {
        first_proposal_flaw(p, now, k + 1)
    }
}

/// The position, from `i` on, of the proposed node with a name.
pub open spec fn key_position(p: Seq<NodeProposalView>, key: Seq<char>, i: int) -> Option<int>
    decreases p.len() - i,
{
    if i < 0 || i >= p.len() {
        None
    } else if p[i].key == key {
        Some(i)
    } else {
        key_position(p, key, i + 1)
    }
}

/// What node `k` depends on: `seen`, and its dependencies from `j` on; or why
/// one is refused.
pub open spec fn proposed_dependencies(
    p: Seq<NodeProposalView>,
    ids: Seq<TaskNodeId>,
    k: int,
    j: int,
    seen: Seq<TaskNodeId>,
) -> Result<Seq<TaskNodeId>, OrchestrationErrorView>
    decreases p[k].depends_on.len() - j,
{
    if j < 0 || j >= p[k].depends_on.len() {
        Ok(seen)
    } else {
        let dependency = p[k].depends_on[j];
        match key_position(p, dependency, 0) {
            None => Err(
                OrchestrationErrorView::UnknownDependency { task_key: p[k].key, dependency },
            ),
            Some(m) => if ids[m] == ids[k] {
                Err(OrchestrationErrorView::SelfDependency { task_key: p[k].key })
            } else if seen.contains(ids[m]) {
                Err(
                    OrchestrationErrorView::DuplicateDependency { task_key: p[k].key, dependency },
                )
            } else {
                proposed_dependencies(p, ids, k, j + 1, seen.push(ids[m]))
            },
        }
    }
}

/// The edges from a node to what it depends on.
pub open spec fn edges_from(id: TaskNodeId, deps: Seq<TaskNodeId>) -> Seq<
    (TaskNodeId, TaskNodeId),
> {
    deps.map_values(|d: TaskNodeId| (id, d))
}

/// The edges `so_far` and those of the proposed nodes from `k` on, or why one
/// is refused.
pub open spec fn proposed_edges(
    p: Seq<NodeProposalView>,
    ids: Seq<TaskNodeId>,
    k: int,
    so_far: Seq<(TaskNodeId, TaskNodeId)>,
) -> Result<Seq<(TaskNodeId, TaskNodeId)>, OrchestrationErrorView>
    decreases p.len() - k,
{
    if k < 0 || k >= p.len() {
        Ok(so_far)
    } else {
        match proposed_dependencies(p, ids, k, 0, Seq::empty()) {
            Err(e) => Err(e),
            Ok(deps) => proposed_edges(p, ids, k + 1, so_far + edges_from(ids[k], deps)),
        }
    }
}

/// A proposed node under an identity.
pub open spec fn made_node(p: NodeProposalView, id: TaskNodeId) -> NodeView {
    NodeView {
        id,
        key: p.key,
        description: p.description,
        expected_output: p.expected_output,
        requirements: p.requirements,
        limits: p.limits,
        deadline_at: p.deadline_at,
    }
}

/// The proposed nodes under their identities.
pub open spec fn made_nodes(p: Seq<NodeProposalView>, ids: Seq<TaskNodeId>) -> Seq<NodeView> {
    Seq::new(p.len(), |i: int| made_node(p[i], ids[i]))
}

/// The graph that a proposal gives under given identities, or why it gives
/// none.
pub open spec fn proposed_graph(
    ids: Seq<TaskNodeId>,
    orchestration_id: OrchestrationId,
    workspace_id: WorkspaceId,
    revision: u64,
    created_by: PrincipalView,
    p: Seq<NodeProposalView>,
    created_at: TimestampMillis,
) -> Result<GraphView, OrchestrationErrorView> {
    if revision == 0 {
        Err(OrchestrationErrorView::InvalidGraphRevision)
    } else if p.len() == 0 || p.len() > MAX_TASK_NODES {
        Err(OrchestrationErrorView::InvalidTaskCount)
    } else if first_proposal_flaw(p, created_at, 0) is Some {
        Err(first_proposal_flaw(p, created_at, 0)->0)
    } else {
        match proposed_edges(p, ids, 0, Seq::empty()) {
            Err(e) => Err(e),
            Ok(edges) => materialized(
                orchestration_id,
                workspace_id,
                revision,
                created_by,
                created_at,
                node_table(made_nodes(p, ids)),
                edges,
                None,
            ),
        }
    }
}

proof fn unflawed_proposals(p: Seq<NodeProposalView>, now: TimestampMillis, from: int)
    requires
        0 <= from,
        first_proposal_flaw(p, now, from) is None,
    ensures
        forall|k: int| from <= k < p.len() ==> (#[trigger] p[k]).flaw() is None,
    decreases p.len() - from,
{
    if from < p.len() {
        unflawed_proposals(p, now, from + 1);
    }
}

fn check_proposals(p: &Vec<TaskNodeProposal>, now: TimestampMillis) -> (r: Result<
    (),
    OrchestrationError,
>)
    ensures
        flaw_of(r) == first_proposal_flaw(views(p@), now, 0),
{
    let ghost all = views(p@);
    let mut k: usize = 0;
    while k < p.len()
        invariant
            k <= p@.len(),
            all == views(p@),
            first_proposal_flaw(all, now, 0) == first_proposal_flaw(all, now, k as int),
        decreases p@.len() - k,
    {
        proof {
            assert(all[k as int] == p@[k as int]@);
        }
        match p[k].validate() {
            Ok(()) => {},
            Err(e) => {
                return Err(e);
            },
        }
        if is_deadline_passed(p[k].deadline_at, now) {
            return Err(OrchestrationError::InvalidDeadline { task_key: p[k].key.clone() });
        }
        let mut j: usize = 0;
        while j < k
            invariant
                j <= k < p@.len(),
                all == views(p@),
                all[k as int] == p@[k as int]@,
                all[k as int].flaw() is None,
                !deadline_passed(all[k as int].deadline_at, now),
                first_proposal_flaw(all, now, 0) == first_proposal_flaw(all, now, k as int),
                forall|i: int| 0 <= i < j ==> (#[trigger] all[i]).key != all[k as int].key,
            decreases k - j,
        {
            proof {
                assert(all[j as int] == p@[j as int]@);
            }
            if str_eq(p[j].key.as_str(), p[k].key.as_str()) {
                return Err(OrchestrationError::DuplicateTaskKey(p[k].key.clone()));
            }
            j += 1;
        }
        k += 1;
    }
    Ok(())
}

fn find_key(p: &Vec<TaskNodeProposal>, key: &str) -> (r: Option<usize>)
    ensures
        match r {
            Some(i) => i < p@.len() && key_position(views(p@), key@, 0) == Some(i as int),
            None => key_position(views(p@), key@, 0) is None,
        },
{
    let ghost all = views(p@);
    let mut i: usize = 0;
    while i < p.len()
        invariant
            i <= p@.len(),
            all == views(p@),
            key_position(all, key@, 0) == key_position(all, key@, i as int),
        decreases p@.len() - i,
    {
        proof {
            assert(all[i as int] == p@[i as int]@);
        }
        if str_eq(p[i].key.as_str(), key) {
            return Some(i);
        }
        i += 1;
    }
    None
}

/// Adds the edges of node `k`.
fn add_proposed_edges(
    p: &Vec<TaskNodeProposal>,
    ids: &Vec<TaskNodeId>,
    k: usize,
    edges: &mut Vec<(TaskNodeId, TaskNodeId)>,
) -> (r: Result<(), OrchestrationError>)
    requires
        ids@.len() == p@.len(),
        k < p@.len(),
    ensures
        match r {
            Ok(()) => proposed_dependencies(
                views(p@),
                ids@,
                k as int,
                0,
                Seq::empty(),
            ) matches Ok(deps) && final(edges)@ == old(edges)@ + edges_from(ids@[k as int], deps),
            Err(e) => proposed_dependencies(views(p@), ids@, k as int, 0, Seq::empty()) == Err::<
                Seq<TaskNodeId>,
                OrchestrationErrorView,
            >(e@),
        },
{
    let ghost all = views(p@);
    let ghost before = edges@;
    let ghost start = proposed_dependencies(all, ids@, k as int, 0, Seq::empty());
    let mut seen: Vec<TaskNodeId> = Vec::new();
    proof {
        assert(all[k as int] == p@[k as int]@);
        assert(seen@ =~= Seq::<TaskNodeId>::empty());
        assert(edges_from(ids@[k as int], seen@) =~= Seq::<(TaskNodeId, TaskNodeId)>::empty());
        assert(before + edges_from(ids@[k as int], seen@) =~= before);
    }
    let mut j: usize = 0;
    while j < p[k].depends_on.len()
        invariant
            k < p@.len(),
            j <= p@[k as int].depends_on@.len(),
            ids@.len() == p@.len(),
            all == views(p@),
            all[k as int] == p@[k as int]@,
            start == proposed_dependencies(all, ids@, k as int, 0, Seq::empty()),
            start == proposed_dependencies(all, ids@, k as int, j as int, seen@),
            edges@ == before + edges_from(ids@[k as int], seen@),
        decreases p@[k as int].depends_on@.len() - j,
    {
        let dependency = &p[k].depends_on[j];
        proof {
            assert(all[k as int].depends_on[j as int] == dependency@);
        }
        let m = match find_key(p, dependency.as_str()) {
            Some(m) => m,
            None => {
                return Err(
                    OrchestrationError::UnknownDependency {
                        task_key: p[k].key.clone(),
                        dependency: dependency.clone(),
                    },
                );
            },
        };
        if ids[m] == ids[k] {
            return Err(OrchestrationError::SelfDependency { task_key: p[k].key.clone() });
        }
        if has_id(&seen, ids[m]) {
            return Err(
                OrchestrationError::DuplicateDependency {
                    task_key: p[k].key.clone(),
                    dependency: dependency.clone(),
                },
            );
        }
        let ghost was = seen@;
        let ghost mid = edges@;
        seen.push(ids[m]);
        edges.push((ids[k], ids[m]));
        proof {
            assert(edges_from(ids@[k as int], seen@) =~= edges_from(ids@[k as int], was).push(
                (ids@[k as int], ids@[m as int]),
            ));
            assert(edges@ =~= before + edges_from(ids@[k as int], seen@));
        }
        j += 1;
    }
    Ok(())
}

impl TaskGraph {
    #[verifier::type_invariant]
    spec fn holds(self) -> bool {
        self@.wf()
    }

    /// The graph that a proposal gives, with fresh identities for its nodes.
    pub fn from_proposal(
        orchestration_id: OrchestrationId,
        workspace_id: WorkspaceId,
        revision: u64,
        created_by: PrincipalId,
        proposal: TaskGraphProposal,
        created_at: TimestampMillis,
    ) -> (r: Result<TaskGraph, OrchestrationError>)
        ensures
            exists|ids: Seq<TaskNodeId>|
                ids.len() == proposal@.len() && graph_view(r) == #[trigger] proposed_graph(
                    ids,
                    orchestration_id,
                    workspace_id,
                    revision,
                    created_by@,
                    proposal@,
                    created_at,
                ),
    {
        let mut ids: Vec<TaskNodeId> = Vec::new();
        let mut i: usize = 0;
        while i < proposal.nodes.len()
            invariant
                i <= proposal.nodes@.len(),
                ids@.len() == i,
            decreases proposal.nodes@.len() - i,
        {
            ids.push(TaskNodeId::new());
            i += 1;
        }
        let ghost by = created_by@;
        let ghost p = proposal@;
        let r = TaskGraph::from_proposal_as(
            &ids,
            orchestration_id,
            workspace_id,
            revision,
            created_by,
            proposal,
            created_at,
        );
        proof {
            assert(ids@.len() == p.len() && graph_view(r) == proposed_graph(
                ids@,
                orchestration_id,
                workspace_id,
                revision,
                by,
                p,
                created_at,
            ));
        }
        r
    }

    /// The graph that a proposal gives under the given identities, one for
    /// each of its nodes.
    pub fn from_proposal_as(
        ids: &Vec<TaskNodeId>,
        orchestration_id: OrchestrationId,
        workspace_id: WorkspaceId,
        revision: u64,
        created_by: PrincipalId,
        proposal: TaskGraphProposal,
        created_at: TimestampMillis,
    ) -> (r: Result<TaskGraph, OrchestrationError>)
        requires
            ids@.len() == proposal@.len(),
        ensures
            graph_view(r) == proposed_graph(
                ids@,
                orchestration_id,
                workspace_id,
                revision,
                created_by@,
                proposal@,
                created_at,
            ),
    {
        let p = proposal.nodes;
        let ghost all = views(p@);
        if revision == 0 {
            return Err(OrchestrationError::InvalidGraphRevision);
        }
        if p.len() == 0 || p.len() > MAX_TASK_NODES {
            return Err(OrchestrationError::InvalidTaskCount);
        }
        match check_proposals(&p, created_at) {
            Ok(()) => {},
            Err(e) => {
                return Err(e);
            },
        }
        proof {
            unflawed_proposals(all, created_at, 0);
        }
        let ghost made = made_nodes(all, ids@);
        let mut nodes: Vec<TaskNode> = Vec::new();
        let mut edges: Vec<(TaskNodeId, TaskNodeId)> = Vec::new();
        proof {
            assert(made.take(0) =~= Seq::<NodeView>::empty());
            assert(views(nodes@) =~= node_table(made.take(0)));
            assert(edges@ =~= Seq::<(TaskNodeId, TaskNodeId)>::empty());
        }
        let mut k: usize = 0;
        while k < p.len()
            invariant
                k <= p@.len(),
                ids@.len() == p@.len(),
                all == views(p@),
                all == proposal@,
                made == made_nodes(all, ids@),
                revision != 0,
                0 < all.len() <= MAX_TASK_NODES,
                first_proposal_flaw(all, created_at, 0) is None,
                forall|i: int| 0 <= i < all.len() ==> (#[trigger] all[i]).flaw() is None,
                views(nodes@) == node_table(made.take(k as int)),
                proposed_edges(all, ids@, 0, Seq::empty()) == proposed_edges(
                    all,
                    ids@,
                    k as int,
                    edges@,
                ),
            decreases p@.len() - k,
        {
            proof {
                assert(all[k as int] == p@[k as int]@);
                assert(all[k as int].flaw() is None);
                assert(made.take(k + 1).drop_last() =~= made.take(k as int));
                assert(made.take(k + 1).last() == made_node(all[k as int], ids@[k as int]));
            }
            match add_proposed_edges(&p, ids, k, &mut edges) {
                Ok(()) => {},
                Err(e) => {
                    return Err(e);
                },
            }
            let node = match TaskNode::new(
                ids[k],
                p[k].key.clone(),
                p[k].description.clone(),
                p[k].expected_output,
                p[k].requirements.clone(),
                p[k].limits,
                p[k].deadline_at,
            ) {
                Ok(n) => n,
                Err(e) => {
                    return Err(e);
                },
            };
            add_node(&mut nodes, node);
            k += 1;
        }
        proof {
            assert(made.take(k as int) =~= made);
            node_table_ascends(made);
        }
        TaskGraph::from_materialized(
            orchestration_id,
            workspace_id,
            revision,
            created_by,
            created_at,
            nodes,
            edges,
            None,
        )
    }

    /// The graph of the given nodes and edges, as they were stored, if they
    /// still have the digest that was stored with them.
    pub fn from_stored_parts(
        orchestration_id: OrchestrationId,
        workspace_id: WorkspaceId,
        revision: u64,
        created_by: PrincipalId,
        created_at: TimestampMillis,
        nodes: Vec<TaskNode>,
        dependency_edges: Vec<(TaskNodeId, TaskNodeId)>,
        expected_digest: ContextDigest,
    ) -> (r: Result<TaskGraph, OrchestrationError>)
        ensures
            graph_view(r) == stored_graph(
                orchestration_id,
                workspace_id,
                revision,
                created_by@,
                created_at,
                views(nodes@),
                dependency_edges@,
                expected_digest@,
            ),
    {
        let ghost all = views(nodes@);
        let mut table: Vec<TaskNode> = Vec::new();
        let mut i: usize = 0;
        proof {
            assert(all.take(0) =~= Seq::<NodeView>::empty());
            assert(views(table@) =~= node_table(all.take(0)));
        }
        while i < nodes.len()
            invariant
                i <= nodes@.len(),
                all == views(nodes@),
                views(table@) == node_table(all.take(i as int)),
            decreases nodes@.len() - i,
        {
            proof {
                assert(all.take(i + 1).drop_last() =~= all.take(i as int));
                assert(all.take(i + 1).last() == nodes@[i as int]@);
            }
            add_node(&mut table, nodes[i].clone());
            i += 1;
        }
        proof {
            assert(all.take(i as int) =~= all);
            node_table_ascends(all);
            assert(views(table@).len() == table@.len());
        }
        if table.len() != nodes.len() {
            return Err(OrchestrationError::DuplicateTaskNodeId);
        }
        TaskGraph::from_materialized(
            orchestration_id,
            workspace_id,
            revision,
            created_by,
            created_at,
            table,
            dependency_edges,
            Some(expected_digest),
        )
    }

    fn from_materialized(
        orchestration_id: OrchestrationId,
        workspace_id: WorkspaceId,
        revision: u64,
        created_by: PrincipalId,
        created_at: TimestampMillis,
        nodes: Vec<TaskNode>,
        edges: Vec<(TaskNodeId, TaskNodeId)>,
        expected_digest: Option<ContextDigest>,
    ) -> (r: Result<TaskGraph, OrchestrationError>)
        requires
            nodes_ascend(views(nodes@)),
        ensures
            graph_view(r) == materialized(
                orchestration_id,
                workspace_id,
                revision,
                created_by@,
                created_at,
                views(nodes@),
                edges@,
                match expected_digest {
                    Some(d) => Some(d@),
                    None => None,
                },
            ),
    {
        let ghost nv = views(nodes@);
        let ghost none = no_dependencies(nv.len());
        if revision == 0 {
            return Err(OrchestrationError::InvalidGraphRevision);
        }
        if nodes.len() == 0 || nodes.len() > MAX_TASK_NODES {
            return Err(OrchestrationError::InvalidTaskCount);
        }
        match check_nodes(&nodes, created_at) {
            Ok(()) => {},
            Err(e) => {
                return Err(e);
            },
        }
        let mut dependencies: Vec<Vec<TaskNodeId>> = Vec::new();
        let mut i: usize = 0;
        while i < nodes.len()
            invariant
                i <= nodes@.len(),
                dependencies@.len() == i,
                forall|k: int|
                    0 <= k < i ==> (#[trigger] dependencies@[k])@ == Seq::<TaskNodeId>::empty(),
            decreases nodes@.len() - i,
        {
            dependencies.push(Vec::new());
            i += 1;
        }
        proof {
            assert(views(dependencies@) =~= none);
        }
        let mut k: usize = 0;
        while k < edges.len()
            invariant
                k <= edges@.len(),
                nv == views(nodes@),
                none == no_dependencies(nv.len()),
                dependencies@.len() == nodes@.len(),
                revision != 0,
                0 < nv.len() <= MAX_TASK_NODES,
                first_node_flaw(nv, created_at, 0) is None,
                with_edges(nv, none, edges@, 0) == with_edges(
                    nv,
                    views(dependencies@),
                    edges@,
                    k as int,
                ),
            decreases edges@.len() - k,
        {
            let (node_id, dependency_id) = edges[k];
            let ghost dv = views(dependencies@);
            let at = match find_node(&nodes, node_id) {
                Some(at) => at,
                None => {
                    return Err(OrchestrationError::UnknownTaskNode(node_id));
                },
            };
            proof {
                assert(nv[at as int] == nodes@[at as int]@);
                assert(dv[at as int] == dependencies@[at as int]@);
            }
            if find_node(&nodes, dependency_id).is_none() {
                return Err(
                    OrchestrationError::UnknownDependencyId {
                        task_key: nodes[at].key().clone(),
                        dependency_id,
                    },
                );
            }
            if node_id == dependency_id {
                return Err(
                    OrchestrationError::SelfDependency { task_key: nodes[at].key().clone() },
                );
            }
            if dependencies[at].len() >= MAX_DEPENDENCIES_PER_NODE {
                return Err(
                    OrchestrationError::TooManyDependencies { task_key: nodes[at].key().clone() },
                );
            }
            if has_id(&dependencies[at], dependency_id) {
                return Err(
                    OrchestrationError::DuplicateDependencyId {
                        task_key: nodes[at].key().clone(),
                        dependency_id,
                    },
                );
            }
            let mut row = clone_ids(&dependencies[at]);
            add_id(&mut row, dependency_id);
            let ghost list = row@;
            dependencies.set(at, row);
            proof {
                assert(views(dependencies@) =~= dv.update(at as int, list));
            }
            k += 1;
        }
        let ghost dv = views(dependencies@);
        proof {
            assert(dependencies_known(nv, none));
            edges_are_known(nv, none, edges@, 0);
            assert(ids_distinct(nv));
        }
        let order = topological_order(&nodes, &dependencies);
        if order.len() != nodes.len() {
            return Err(OrchestrationError::CycleDetected);
        }
        let digest = graph_digest(
            orchestration_id,
            workspace_id,
            revision,
            &created_by,
            created_at,
            &nodes,
            &dependencies,
        );
        if let Some(expected) = &expected_digest {
            if !expected.same(&digest) {
                return Err(OrchestrationError::DigestMismatch);
            }
        }
        Ok(
            TaskGraph {
                orchestration_id,
                workspace_id,
                revision,
                created_by,
                created_at,
                nodes,
                dependencies,
                digest,
            },
        )
    }

    /// The orchestration.
    pub fn orchestration_id(&self) -> (r: OrchestrationId)
        ensures
            r == self@.orchestration_id,
    {
        self.orchestration_id
    }

    /// The workspace.
    pub fn workspace_id(&self) -> (r: WorkspaceId)
        ensures
            r == self@.workspace_id,
    {
        self.workspace_id
    }

    /// The revision of the graph.
    pub fn revision(&self) -> (r: u64)
        ensures
            r == self@.revision,
    {
        self.revision
    }

    /// Who made it.
    pub fn created_by(&self) -> (r: &PrincipalId)
        ensures
            r@ == self@.created_by,
    {
        &self.created_by
    }

    /// When it was made.
    pub fn created_at(&self) -> (r: TimestampMillis)
        ensures
            r == self@.created_at,
    {
        self.created_at
    }

    /// The nodes in ascending order of their identities.
    pub fn nodes(&self) -> (r: &Vec<TaskNode>)
        ensures
            views(r@) == self@.nodes,
    {
        &self.nodes
    }

    /// The digest of the whole graph.
    pub fn digest(&self) -> (r: &ContextDigest)
        ensures
            r@ == self@.digest,
    {
        &self.digest
    }

    /// What each node depends on, at the position of the node.
    pub fn dependencies(&self) -> (r: &Vec<Vec<TaskNodeId>>)
        ensures
            views(r@) == self@.dependencies,
            self@.wf(),
    {
        proof {
            use_type_invariant(self);
        }
        &self.dependencies
    }

    /// The node with an identity.
    pub fn node(&self, id: TaskNodeId) -> (r: Option<&TaskNode>)
        ensures
            match r {
                Some(n) => position(self@.nodes, id, 0) matches Some(i) && n@ == self@.nodes[i],
                None => position(self@.nodes, id, 0) is None,
            },
    {
        match find_node(&self.nodes, id) {
            Some(i) => Some(&self.nodes[i]),
            None => None,
        }
    }

    /// The edges from each node to what it depends on, in ascending order.
    pub fn dependency_edges(&self) -> (r: Vec<(TaskNodeId, TaskNodeId)>)
        ensures
            r@ == all_edges(self@.nodes, self@.dependencies, 0),
    {
        proof {
            use_type_invariant(self);
        }
        let ghost nv = self@.nodes;
        let ghost dv = self@.dependencies;
        let mut out: Vec<(TaskNodeId, TaskNodeId)> = Vec::new();
        let mut i: usize = 0;
        proof {
            assert(out@ + all_edges(nv, dv, 0) =~= all_edges(nv, dv, 0));
        }
        while i < self.nodes.len()
            invariant
                i <= self.nodes@.len(),
                nv == views(self.nodes@),
                dv == views(self.dependencies@),
                self.dependencies@.len() == self.nodes@.len(),
                all_edges(nv, dv, 0) == out@ + all_edges(nv, dv, i as int),
            decreases self.nodes@.len() - i,
        {
            let ghost before = out@;
            let id = self.nodes[i].id();
            let deps = &self.dependencies[i];
            proof {
                assert(nv[i as int] == self.nodes@[i as int]@);
                assert(dv[i as int] == deps@);
                assert(before + edges_from(id, deps@.take(0)) =~= before);
            }
            let mut j: usize = 0;
            while j < deps.len()
                invariant
                    j <= deps@.len(),
                    out@ == before + edges_from(id, deps@.take(j as int)),
                decreases deps@.len() - j,
            {
                let ghost mid = out@;
                out.push((id, deps[j]));
                proof {
                    assert(edges_from(id, deps@.take(j + 1)) =~= edges_from(
                        id,
                        deps@.take(j as int),
                    ).push((id, deps@[j as int])));
                    assert(out@ =~= before + edges_from(id, deps@.take(j + 1)));
                }
                j += 1;
            }
            proof {
                assert(deps@.take(j as int) =~= deps@);
                assert(before + all_edges(nv, dv, i as int) =~= out@ + all_edges(nv, dv, i + 1));
            }
            i += 1;
        }
        proof {
            assert(out@ + all_edges(nv, dv, i as int) =~= out@);
        }
        out
    }

    /// Checks that the digest is that of the content.
    pub fn verify_digest(&self) -> (r: Result<(), OrchestrationError>)
        ensures
            flaw_of(r) == if self@.content_digest() == self@.digest {
                None
            } else {
                Some(OrchestrationErrorView::DigestMismatch)
            },
    {
        proof {
            use_type_invariant(self);
        }
        let digest = graph_digest(
            self.orchestration_id,
            self.workspace_id,
            self.revision,
            &self.created_by,
            self.created_at,
            &self.nodes,
            &self.dependencies,
        );
        if !digest.same(&self.digest) {
            return Err(OrchestrationError::DigestMismatch);
        }
        Ok(())
    }

    /// Checks that some profile and its policy can serve each node.
    pub fn validate_against_catalog(
        &self,
        profiles: &[ModelProfile],
        policies: &[ModelDataPolicy],
    ) -> (r: Result<(), OrchestrationError>)
        ensures
            flaw_of(r) == catalog_flaw(self@, views(profiles@), views(policies@)),
    {
        match self.verify_digest() {
            Ok(()) => {},
            Err(e) => {
                return Err(e);
            },
        }
        let ghost nv = self@.nodes;
        let ghost pv = views(profiles@);
        let ghost qv = views(policies@);
        let mut i: usize = 0;
        while i < self.nodes.len()
            invariant
                i <= self.nodes@.len(),
                nv == self@.nodes,
                nv == views(self.nodes@),
                pv == views(profiles@),
                qv == views(policies@),
                catalog_flaw(self@, pv, qv) == first_unserved(self@.workspace_id, nv, pv, qv, 0),
                first_unserved(self@.workspace_id, nv, pv, qv, 0) == first_unserved(
                    self@.workspace_id,
                    nv,
                    pv,
                    qv,
                    i as int,
                ),
            decreases self.nodes@.len() - i,
        {
            proof {
                assert(nv[i as int] == self.nodes@[i as int]@);
            }
            let mut served = false;
            let mut k: usize = 0;
            while k < profiles.len()
                invariant
                    k <= profiles@.len(),
                    i < self.nodes@.len(),
                    pv == views(profiles@),
                    qv == views(policies@),
                    served <==> exists|m: int|
                        0 <= m < k && eligible(
                            self@.workspace_id,
                            self.nodes@[i as int]@,
                            #[trigger] pv[m],
                            qv,
                        ),
                decreases profiles@.len() - k,
            {
                proof {
                    assert(pv[k as int] == profiles@[k as int]@);
                }
                if profile_is_eligible(self.workspace_id, &self.nodes[i], &profiles[k], policies) {
                    served = true;
                    proof {
                        assert(eligible(
                            self@.workspace_id,
                            self.nodes@[i as int]@,
                            pv[k as int],
                            qv,
                        ));
                    }
                }
                k += 1;
            }
            if !served {
                return Err(
                    OrchestrationError::NoEligibleModel { task_key: self.nodes[i].key().clone() },
                );
            }
            i += 1;
        }
        Ok(())
    }

    /// The first states of the tasks, in the order in which they become
    /// ready: those that depend on nothing are ready, the others pending.
    pub fn initial_state_revisions(&self, created_at: TimestampMillis) -> (r: Vec<
        TaskStateRevision,
    >)
        ensures
            views(r@) == initial_states(self@, created_at),
    {
        proof {
            use_type_invariant(self);
            assert(ids_distinct(self@.nodes));
            order_is_topological(self@.nodes, self@.dependencies);
        }
        let order = topological_order(&self.nodes, &self.dependencies);
        let ghost g = self@;
        let mut out: Vec<TaskStateRevision> = Vec::new();
        let mut k: usize = 0;
        while k < order.len()
            invariant
                k <= order@.len(),
                g == self@,
                g.wf(),
                order@ == order_of(g.nodes, g.dependencies),
                is_topological(g.nodes, g.dependencies, order@),
                out@.len() == k,
                forall|m: int|
                    0 <= m < k ==> (#[trigger] out@[m])@ == initial_state(g, order@[m], created_at),
            decreases order@.len() - k,
        {
            proof {
                assert(placed_well(g.nodes, g.dependencies, order@, k as int));
                position_stands(g.nodes, order@[k as int], 0);
            }
            let state = match find_node(&self.nodes, order[k]) {
                Some(i) => {
                    proof {
                        assert(g.dependencies[i as int] == self.dependencies@[i as int]@);
                    }
                    if self.dependencies[i].len() == 0 {
                        TaskNodeState::Ready
                    } else {
                        TaskNodeState::Pending
                    }
                },
                None => TaskNodeState::Pending,
            };
            out.push(
                TaskStateRevision::initial(
                    self.orchestration_id,
                    self.revision,
                    order[k],
                    state,
                    created_at,
                ),
            );
            k += 1;
        }
        proof {
            assert(views(out@) =~= initial_states(g, created_at));
        }
        out
    }
}

fn clone_ids(ids: &Vec<TaskNodeId>) -> (r: Vec<TaskNodeId>)
    ensures
        r@ == ids@,
{
    let mut out: Vec<TaskNodeId> = Vec::new();
    let mut i: usize = 0;
    while i < ids.len()
        invariant
            i <= ids@.len(),
            out@ == ids@.take(i as int),
        decreases ids@.len() - i,
    {
        out.push(ids[i]);
        proof {
            assert(out@ =~= ids@.take(i + 1));
        }
        i += 1;
    }
    proof {
        assert(out@ =~= ids@);
    }
    out
}

/// The edges from the nodes from `i` on to what they depend on.
pub open spec fn all_edges(nodes: Seq<NodeView>, deps: Seq<Seq<TaskNodeId>>, i: int) -> Seq<
    (TaskNodeId, TaskNodeId),
>
    decreases nodes.len() - i,
{
    if i < 0 || i >= nodes.len() {
        Seq::empty()
    } else {
        edges_from(nodes[i].id, deps[i]) + all_edges(nodes, deps, i + 1)
    }
}

/// The first state of the task with an identity.
pub open spec fn initial_state(g: GraphView, id: TaskNodeId, at: TimestampMillis) -> StateView {
    let state = match position(g.nodes, id, 0) {
        Some(i) => if g.dependencies[i].len() == 0 {
            TaskNodeState::Ready
        } else {
            TaskNodeState::Pending
        },
        None => TaskNodeState::Pending,
    };
    first_state(g.orchestration_id, g.revision, id, state, at)
}

/// The first states of the tasks, in the order in which they become ready.
pub open spec fn initial_states(g: GraphView, at: TimestampMillis) -> Seq<StateView> {
    order_of(g.nodes, g.dependencies).map_values(|id: TaskNodeId| initial_state(g, id, at))
}

/// A policy is for a revision of a profile in a workspace.
pub open spec fn policy_concerns(
    q: PolicyView,
    workspace_id: WorkspaceId,
    profile: ProfileView,
) -> bool {
    &&& q.workspace_id == workspace_id
    &&& q.model_profile_id == profile.id
    &&& q.model_profile_revision == profile.revision
}

/// The last revision of the policy among `best` and those from `i` on.
pub open spec fn latest_policy(
    policies: Seq<PolicyView>,
    workspace_id: WorkspaceId,
    profile: ProfileView,
    i: int,
    best: Option<PolicyView>,
) -> Option<PolicyView>
    decreases policies.len() - i,
{
    if i < 0 || i >= policies.len() {
        best
    } else if policy_concerns(policies[i], workspace_id, profile) && (best is None
        || policies[i].revision >= best->0.revision) {
        latest_policy(policies, workspace_id, profile, i + 1, Some(policies[i]))
    } else {
        latest_policy(policies, workspace_id, profile, i + 1, best)
    }
}

/// A profile can serve a task: it is in use, allowed, able and large enough,
/// and its latest policy lets it see the data.
pub open spec fn eligible(
    workspace_id: WorkspaceId,
    node: NodeView,
    profile: ProfileView,
    policies: Seq<PolicyView>,
) -> bool {
    let need = node.requirements;
    &&& profile.enabled
    &&& need.allowed_model_profiles.len() == 0 || exists|i: int|
        0 <= i < need.allowed_model_profiles.len() && (
        #[trigger] need.allowed_model_profiles[i]).names(profile)
    &&& need.required_model_capabilities.subset_of(profile.capabilities)
    &&& need.required_tools.len() > 0 ==> profile.capabilities.contains(
        ModelCapability::ToolCalling,
    )
    &&& node.limits.max_input_tokens + node.limits.max_output_tokens
        <= profile.context_window_tokens
    &&& latest_policy(policies, workspace_id, profile, 0, None) matches Some(q) && q.is_for(profile)
        && q.allowed_data_classes.contains(need.data_class) && all_within(
        need.required_compartments,
        q.allowed_compartments,
    )
}

/// The first node, from `i` on, that no profile can serve.
pub open spec fn first_unserved(
    workspace_id: WorkspaceId,
    nodes: Seq<NodeView>,
    profiles: Seq<ProfileView>,
    policies: Seq<PolicyView>,
    i: int,
) -> Option<OrchestrationErrorView>
    decreases nodes.len() - i,
{
    if i < 0 || i >= nodes.len() {
        None
    } else if !exists|m: int|
        0 <= m < profiles.len() && eligible(
            workspace_id,
            nodes[i],
            #[trigger] profiles[m],
            policies,
        ) {
        Some(OrchestrationErrorView::NoEligibleModel { task_key: nodes[i].key })
    } else {
        first_unserved(workspace_id, nodes, profiles, policies, i + 1)
    }
}

/// Why a graph cannot be served by some profiles under some policies.
pub open spec fn catalog_flaw(
    g: GraphView,
    profiles: Seq<ProfileView>,
    policies: Seq<PolicyView>,
) -> Option<OrchestrationErrorView> {
    if g.content_digest() != g.digest {
        Some(OrchestrationErrorView::DigestMismatch)
    } else {
        first_unserved(g.workspace_id, g.nodes, profiles, policies, 0)
    }
}

fn find_latest_policy(
    policies: &[ModelDataPolicy],
    workspace_id: WorkspaceId,
    profile: &ModelProfile,
) -> (r: Option<usize>)
    ensures
        match r {
            Some(i) => i < policies@.len() && latest_policy(
                views(policies@),
                workspace_id,
                profile@,
                0,
                None,
            ) == Some(policies@[i as int]@),
            None => latest_policy(views(policies@), workspace_id, profile@, 0, None) is None,
        },
{
    let ghost all = views(policies@);
    let ghost pv = profile@;
    let mut best: Option<usize> = None;
    let mut i: usize = 0;
    while i < policies.len()
        invariant
            i <= policies@.len(),
            all == views(policies@),
            pv == profile@,
            best matches Some(b) ==> b < policies@.len(),
            latest_policy(all, workspace_id, pv, 0, None) == latest_policy(
                all,
                workspace_id,
                pv,
                i as int,
                match best {
                    Some(b) => Some(all[b as int]),
                    None => None,
                },
            ),
        decreases policies@.len() - i,
    {
        proof {
            assert(all[i as int] == policies@[i as int]@);
        }
        let q = &policies[i];
        if q.workspace_id() == workspace_id && str_eq(
            q.model_profile_id().as_str(),
            profile.id().as_str(),
        ) && q.model_profile_revision() == profile.revision() {
            let newer = match best {
                Some(b) => {
                    proof {
                        assert(all[b as int] == policies@[b as int]@);
                    }
                    q.revision() >= policies[b].revision()
                },
                None => true,
            };
            if newer {
                best = Some(i);
            }
        }
        i += 1;
    }
    proof {
        if let Some(b) = best {
            assert(all[b as int] == policies@[b as int]@);
        }
    }
    best
}

fn has_all(need: &ModelCapabilities, have: &ModelCapabilities) -> (r: bool)
    ensures
        r == need@.subset_of(have@),
{
    let list = need.iter();
    proof {
        in_order_is_ranked(need@);
    }
    let mut i: usize = 0;
    while i < list.len()
        invariant
            i <= list@.len(),
            list@ == in_order(need@),
            crate::provider::capability_set(list@) == need@,
            forall|k: int| 0 <= k < i ==> have@.contains(#[trigger] list@[k]),
        decreases list@.len() - i,
    {
        if !have.contains(list[i]) {
            proof {
                assert(list@.contains(list@[i as int]));
                assert(need@.contains(list@[i as int]));
            }
            return false;
        }
        i += 1;
    }
    proof {
        assert forall|c: ModelCapability| need@.contains(c) implies have@.contains(c) by {
            assert(list@.contains(c));
        }
    }
    true
}

fn profile_is_eligible(
    workspace_id: WorkspaceId,
    node: &TaskNode,
    profile: &ModelProfile,
    policies: &[ModelDataPolicy],
) -> (r: bool)
    ensures
        r == eligible(workspace_id, node@, profile@, views(policies@)),
{
    let need = node.requirements();
    if !profile.enabled() {
        return false;
    }
    let allowed = need.allowed_model_profiles();
    let ghost refs = node@.requirements.allowed_model_profiles;
    if allowed.len() > 0 {
        let mut named = false;
        let mut i: usize = 0;
        while i < allowed.len()
            invariant
                i <= allowed@.len(),
                refs == views(allowed@),
                named <==> exists|k: int| 0 <= k < i && (#[trigger] refs[k]).names(profile@),
            decreases allowed@.len() - i,
        {
            proof {
                assert(refs[i as int] == allowed@[i as int]@);
            }
            if allowed[i].matches(profile) {
                proof {
                    assert(refs[i as int].names(profile@));
                }
                named = true;
            }
            i += 1;
        }
        if !named {
            return false;
        }
    }
    if !has_all(need.required_model_capabilities(), profile.capabilities()) || (
    need.required_tools().len() > 0 && !profile.capabilities().contains(
        ModelCapability::ToolCalling,
    )) {
        return false;
    }
    let window = profile.context_window_tokens() as u64;
    match node.limits().max_input_tokens.checked_add(node.limits().max_output_tokens) {
        Some(tokens) => {
            if tokens > window {
                return false;
            }
        },
        None => {
            return false;
        },
    }
    match find_latest_policy(policies, workspace_id, profile) {
        Some(i) => {
            let q = &policies[i];
            q.validate_profile(profile).is_ok() && has_class(
                q.allowed_data_classes(),
                need.data_class(),
            ) && need.required_compartments().is_subset(q.allowed_compartments())
        },
        None => false,
    }
}

/// A profile that can serve a task never gets secrets, nor a compartment that
/// its latest policy does not allow.
pub proof fn eligible_profiles_may_see_the_data(
    workspace_id: WorkspaceId,
    node: NodeView,
    profile: ProfileView,
    policies: Seq<PolicyView>,
)
    requires
        eligible(workspace_id, node, profile, policies),
        forall|i: int| 0 <= i < policies.len() ==> (#[trigger] policies[i]).wf(),
    ensures
        node.requirements.data_class != crate::egress::DataClass::Secret,
{
    latest_is_one(policies, workspace_id, profile, 0, None);
}

proof fn latest_is_one(
    policies: Seq<PolicyView>,
    workspace_id: WorkspaceId,
    profile: ProfileView,
    i: int,
    best: Option<PolicyView>,
)
    requires
        0 <= i,
        best matches Some(b) ==> policies.contains(b),
    ensures
        latest_policy(policies, workspace_id, profile, i, best) matches Some(q)
            ==> policies.contains(q),
    decreases policies.len() - i,
{
    if i < policies.len() {
        assert(policies.contains(policies[i]));
        if policy_concerns(policies[i], workspace_id, profile) && (best is None
            || policies[i].revision >= best->0.revision) {
            latest_is_one(policies, workspace_id, profile, i + 1, Some(policies[i]));
        } else {
            latest_is_one(policies, workspace_id, profile, i + 1, best);
        }
    }
}

/// The first state of a task is ready exactly if it depends on nothing.
pub proof fn tasks_without_dependencies_start_ready(
    g: GraphView,
    i: int,
    at: TimestampMillis,
)
    requires
        g.wf(),
        0 <= i < g.nodes.len(),
    ensures
        initial_state(g, g.nodes[i].id, at).state == (if g.dependencies[i].len() == 0 {
            TaskNodeState::Ready
        } else {
            TaskNodeState::Pending
        }),
{
    position_stands(g.nodes, g.nodes[i].id, 0);
    let p = position(g.nodes, g.nodes[i].id, 0)->0;
    if p < i {
        assert(g.nodes[p].id.value < g.nodes[i].id.value);
    } else if i < p {
        assert(g.nodes[i].id.value < g.nodes[p].id.value);
    }
}

proof fn with_id_holds(ids: Seq<TaskNodeId>, id: TaskNodeId, x: TaskNodeId)
    ensures
        with_id(ids, id).contains(x) <==> ids.contains(x) || x == id,
{
    id_slot_range(ids, id, 0);
    let at = id_slot(ids, id, 0);
    let all = with_id(ids, id);
    assert(all[at] == id);
    if ids.contains(x) {
        let k = choose|k: int| 0 <= k < ids.len() && ids[k] == x;
        assert(all[if k < at {
            k
        } else {
            k + 1
        }] == x);
    }
    if all.contains(x) && x != id {
        let k = choose|k: int| 0 <= k < all.len() && all[k] == x;
        assert(ids[if k < at {
            k
        } else {
            k - 1
        }] == x);
    }
}

proof fn edges_are_held(
    nodes: Seq<NodeView>,
    deps: Seq<Seq<TaskNodeId>>,
    edges: Seq<(TaskNodeId, TaskNodeId)>,
    k: int,
    i: int,
    x: TaskNodeId,
)
    requires
        nodes_ascend(nodes),
        deps.len() == nodes.len(),
        0 <= k <= edges.len(),
        0 <= i < nodes.len(),
        with_edges(nodes, deps, edges, k) is Ok,
    ensures
        ({
            let all = with_edges(nodes, deps, edges, k)->Ok_0;
            &&& all.len() == nodes.len()
            &&& all[i].contains(x) <==> deps[i].contains(x) || exists|m: int|
                k <= m < edges.len() && #[trigger] edges[m] == (nodes[i].id, x)
        }),
        forall|m: int|
            k <= m < edges.len() ==> {
                &&& (#[trigger] edges[m]).0 != edges[m].1
                &&& position(nodes, edges[m].0, 0) is Some
                &&& position(nodes, edges[m].1, 0) is Some
            },
    decreases edges.len() - k,
{
    if k < edges.len() {
        let p = position(nodes, edges[k].0, 0)->0;
        position_stands(nodes, edges[k].0, 0);
        let next = deps.update(p, with_id(deps[p], edges[k].1));
        edges_are_held(nodes, next, edges, k + 1, i, x);
        with_id_holds(deps[p], edges[k].1, x);
        let all = with_edges(nodes, deps, edges, k)->Ok_0;
        if p != i {
            if p < i {
                assert(nodes[p].id.value < nodes[i].id.value);
            } else {
                assert(nodes[i].id.value < nodes[p].id.value);
            }
        }
        if all[i].contains(x) && !deps[i].contains(x) {
            if next[i].contains(x) {
                assert(p == i);
                assert(edges[k] == (nodes[i].id, x));
            } else {
                let m = choose|m: int|
                    k + 1 <= m < edges.len() && #[trigger] edges[m] == (nodes[i].id, x);
                assert(edges[m] == (nodes[i].id, x));
            }
        }
        if exists|m: int| k <= m < edges.len() && #[trigger] edges[m] == (nodes[i].id, x) {
            let m = choose|m: int|
                k <= m < edges.len() && #[trigger] edges[m] == (nodes[i].id, x);
            if m == k {
                assert(p == i);
                assert(next[i].contains(x));
            } else {
                assert(edges[m] == (nodes[i].id, x));
            }
        }
    }
}

/// A graph holds the nodes that were given and, as dependencies, exactly the
/// edges: a task depends on another exactly if an edge says so. No edge leads
/// out of the graph or back to its own node. The graph is otherwise what was
/// asked for.
pub proof fn graphs_hold_exactly_their_edges(
    orchestration_id: OrchestrationId,
    workspace_id: WorkspaceId,
    revision: u64,
    created_by: PrincipalView,
    created_at: TimestampMillis,
    nodes: Seq<NodeView>,
    edges: Seq<(TaskNodeId, TaskNodeId)>,
    expected: Option<Seq<char>>,
    i: int,
    x: TaskNodeId,
)
    requires
        nodes_ascend(nodes),
        0 <= i < nodes.len(),
    ensures
        materialized(
            orchestration_id,
            workspace_id,
            revision,
            created_by,
            created_at,
            nodes,
            edges,
            expected,
        ) matches Ok(g) ==> {
            &&& g.nodes == nodes
            &&& g.orchestration_id == orchestration_id && g.workspace_id == workspace_id
            &&& g.revision == revision && revision > 0
            &&& g.created_by == created_by && g.created_at == created_at
            &&& g.dependencies.len() == nodes.len()
            &&& g.dependencies[i].contains(x) <==> edges.contains((nodes[i].id, x))
            &&& forall|m: int|
                0 <= m < edges.len() ==> (#[trigger] edges[m]).0 != edges[m].1
            &&& expected matches Some(d) ==> g.digest == d
        },
{
    let none = no_dependencies(nodes.len());
    if with_edges(nodes, none, edges, 0) is Ok {
        edges_are_held(nodes, none, edges, 0, i, x);
        let e = (nodes[i].id, x);
        assert(!none[i].contains(x));
        if edges.contains(e) {
            let m = choose|m: int| 0 <= m < edges.len() && edges[m] == e;
            assert(edges[m] == (nodes[i].id, x));
        }
        if exists|m: int| 0 <= m < edges.len() && #[trigger] edges[m] == (nodes[i].id, x) {
            let m = choose|m: int|
                0 <= m < edges.len() && #[trigger] edges[m] == (nodes[i].id, x);
            assert(edges.contains(edges[m]));
        }
    }
}

/// A profile serves a task only if it is in use, is listed where the task lists
/// profiles, has every capability that the task requires, can call tools where
/// the task needs some, and takes in and puts out enough. A policy for this very
/// revision of it, in the workspace and of its zone, allows the class and the
/// compartments of the data, and no later policy for it is known.
pub proof fn eligible_profiles_meet_every_need(
    workspace_id: WorkspaceId,
    node: NodeView,
    profile: ProfileView,
    policies: Seq<PolicyView>,
)
    requires
        eligible(workspace_id, node, profile, policies),
    ensures
        profile.enabled,
        node.requirements.allowed_model_profiles.len() > 0 ==> exists|i: int|
            0 <= i < node.requirements.allowed_model_profiles.len() && (
            #[trigger] node.requirements.allowed_model_profiles[i]).id == profile.id
                && node.requirements.allowed_model_profiles[i].revision == profile.revision,
        forall|c: ModelCapability| #[trigger]
            node.requirements.required_model_capabilities.contains(c)
                ==> profile.capabilities.contains(c),
        node.requirements.required_tools.len() > 0 ==> profile.capabilities.contains(
            ModelCapability::ToolCalling,
        ),
        node.limits.max_input_tokens + node.limits.max_output_tokens
            <= profile.context_window_tokens,
        exists|p: int|
            {
                let q = #[trigger] policies[p];
                &&& 0 <= p < policies.len()
                &&& q.workspace_id == workspace_id && q.model_profile_id == profile.id
                &&& q.model_profile_revision == profile.revision
                &&& q.model_trust_zone == profile.trust_zone
                &&& q.allowed_data_classes.contains(node.requirements.data_class)
                &&& forall|c: int|
                    0 <= c < node.requirements.required_compartments.len()
                        ==> q.allowed_compartments.contains(
                        #[trigger] node.requirements.required_compartments[c],
                    )
                &&& forall|o: int|
                    0 <= o < policies.len() && (#[trigger] policies[o]).workspace_id
                        == workspace_id && policies[o].model_profile_id == profile.id
                        && policies[o].model_profile_revision == profile.revision
                        ==> policies[o].revision <= q.revision
            },
{
    latest_is_latest(policies, workspace_id, profile, 0, None);
    let q = latest_policy(policies, workspace_id, profile, 0, None)->0;
    let p = choose|p: int| 0 <= p < policies.len() && #[trigger] policies[p] == q;
    assert(policies[p].workspace_id == workspace_id);
}

proof fn latest_is_latest(
    policies: Seq<PolicyView>,
    workspace_id: WorkspaceId,
    profile: ProfileView,
    i: int,
    best: Option<PolicyView>,
)
    requires
        0 <= i <= policies.len(),
        best matches Some(b) ==> policy_concerns(b, workspace_id, profile),
    ensures
        latest_policy(policies, workspace_id, profile, i, best) matches Some(q) ==> {
            &&& policy_concerns(q, workspace_id, profile)
            &&& best matches Some(b) ==> b.revision <= q.revision
            &&& best == Some(q) || exists|p: int|
                i <= p < policies.len() && #[trigger] policies[p] == q
            &&& forall|o: int|
                i <= o < policies.len() && policy_concerns(
                    #[trigger] policies[o],
                    workspace_id,
                    profile,
                ) ==> policies[o].revision <= q.revision
        },
    decreases policies.len() - i,
{
    if i < policies.len() {
        if policy_concerns(policies[i], workspace_id, profile) && (best is None
            || policies[i].revision >= best->0.revision) {
            latest_is_latest(policies, workspace_id, profile, i + 1, Some(policies[i]));
            let r = latest_policy(policies, workspace_id, profile, i, best);
            if r is Some && Some(policies[i]) == r {
                assert(policies[i] == r->0);
            }
        } else {
            latest_is_latest(policies, workspace_id, profile, i + 1, best);
        }
    }
}

/// A catalog serves a graph exactly if the graph has the digest of its content
/// and every task has a profile that can serve it.
pub proof fn catalogs_serve_every_task(
    g: GraphView,
    profiles: Seq<ProfileView>,
    policies: Seq<PolicyView>,
)
    ensures
        catalog_flaw(g, profiles, policies) is None <==> {
            &&& g.content_digest() == g.digest
            &&& forall|i: int|
                0 <= i < g.nodes.len() ==> exists|m: int|
                    0 <= m < profiles.len() && eligible(
                        g.workspace_id,
                        #[trigger] g.nodes[i],
                        #[trigger] profiles[m],
                        policies,
                    )
        },
{
    unserved_or_all(g.workspace_id, g.nodes, profiles, policies, 0);
}

proof fn unserved_or_all(
    workspace_id: WorkspaceId,
    nodes: Seq<NodeView>,
    profiles: Seq<ProfileView>,
    policies: Seq<PolicyView>,
    i: int,
)
    requires
        0 <= i <= nodes.len(),
    ensures
        first_unserved(workspace_id, nodes, profiles, policies, i) is None <==> forall|k: int|
            i <= k < nodes.len() ==> exists|m: int|
                0 <= m < profiles.len() && eligible(
                    workspace_id,
                    #[trigger] nodes[k],
                    #[trigger] profiles[m],
                    policies,
                ),
    decreases nodes.len() - i,
{
    if i < nodes.len() {
        unserved_or_all(workspace_id, nodes, profiles, policies, i + 1);
        let served = exists|m: int|
            0 <= m < profiles.len() && eligible(
                workspace_id,
                nodes[i],
                #[trigger] profiles[m],
                policies,
            );
        if !served {
            assert(!(exists|m: int|
                0 <= m < profiles.len() && eligible(
                    workspace_id,
                    nodes[i],
                    #[trigger] profiles[m],
                    policies,
                )));
        }
    }
}

/// Node `k` names, as its dependency `j`, the proposed node `m`.
pub open spec fn names_dependency(p: Seq<NodeProposalView>, k: int, j: int, m: int) -> bool {
    &&& 0 <= k < p.len() && 0 <= m < p.len()
    &&& 0 <= j < p[k].depends_on.len()
    &&& p[m].key == p[k].depends_on[j]
    &&& forall|l: int| 0 <= l < m ==> (#[trigger] p[l]).key != p[k].depends_on[j]
}

proof fn key_stands(p: Seq<NodeProposalView>, key: Seq<char>, i: int)
    requires
        0 <= i <= p.len(),
    ensures
        match key_position(p, key, i) {
            Some(m) => i <= m < p.len() && p[m].key == key && forall|l: int|
                i <= l < m ==> (#[trigger] p[l]).key != key,
            None => forall|l: int| i <= l < p.len() ==> (#[trigger] p[l]).key != key,
        },
    decreases p.len() - i,
{
    if i < p.len() && p[i].key != key {
        key_stands(p, key, i + 1);
    }
}

proof fn dependencies_are_named(
    p: Seq<NodeProposalView>,
    ids: Seq<TaskNodeId>,
    k: int,
    j: int,
    seen: Seq<TaskNodeId>,
    x: TaskNodeId,
)
    requires
        0 <= k < p.len(),
        0 <= j <= p[k].depends_on.len(),
        proposed_dependencies(p, ids, k, j, seen) is Ok,
    ensures
        proposed_dependencies(p, ids, k, j, seen)->Ok_0.contains(x) <==> seen.contains(x) || exists|
            i: int,
            m: int,
        | #[trigger] names_dependency(p, k, i, m) && j <= i && ids[m] == x,
    decreases p[k].depends_on.len() - j,
{
    let all = proposed_dependencies(p, ids, k, j, seen)->Ok_0;
    if j < p[k].depends_on.len() {
        let name = p[k].depends_on[j];
        key_stands(p, name, 0);
        let m = key_position(p, name, 0)->0;
        let next = seen.push(ids[m]);
        dependencies_are_named(p, ids, k, j + 1, next, x);
        assert(names_dependency(p, k, j, m));
        assert(next.contains(x) <==> seen.contains(x) || x == ids[m]) by {
            assert(next[seen.len() as int] == ids[m]);
            if seen.contains(x) {
                let q = choose|q: int| 0 <= q < seen.len() && seen[q] == x;
                assert(next[q] == x);
            }
            if next.contains(x) && x != ids[m] {
                let q = choose|q: int| 0 <= q < next.len() && next[q] == x;
                assert(seen[q] == x);
            }
        }
        if exists|i: int, o: int| #[trigger] names_dependency(p, k, i, o) && j <= i && ids[o] == x {
            let (i, o) = choose|i: int, o: int| #[trigger]
                names_dependency(p, k, i, o) && j <= i && ids[o] == x;
            if i == j {
                if o < m {
                    assert(p[o].key != name);
                } else if m < o {
                    assert(p[m].key != name);
                }
                assert(next.contains(x));
            } else {
                assert(names_dependency(p, k, i, o) && j + 1 <= i && ids[o] == x);
            }
        }
    } else {
        assert(all == seen);
    }
}

/// The edges of a proposal are those that it names: one from each node to each
/// node whose name it lists among its dependencies, and no other.
pub proof fn proposed_edges_are_those_named(
    p: Seq<NodeProposalView>,
    ids: Seq<TaskNodeId>,
    k: int,
    so_far: Seq<(TaskNodeId, TaskNodeId)>,
    a: TaskNodeId,
    b: TaskNodeId,
)
    requires
        0 <= k <= p.len(),
        proposed_edges(p, ids, k, so_far) is Ok,
    ensures
        proposed_edges(p, ids, k, so_far)->Ok_0.contains((a, b)) <==> so_far.contains((a, b))
            || exists|n: int, j: int, m: int| #[trigger]
            names_dependency(p, n, j, m) && k <= n && ids[n] == a && ids[m] == b,
    decreases p.len() - k,
{
    let all = proposed_edges(p, ids, k, so_far)->Ok_0;
    if k < p.len() {
        let deps = proposed_dependencies(p, ids, k, 0, Seq::empty())->Ok_0;
        let mine = edges_from(ids[k], deps);
        let next = so_far + mine;
        proposed_edges_are_those_named(p, ids, k + 1, next, a, b);
        dependencies_are_named(p, ids, k, 0, Seq::empty(), b);
        let e = (a, b);
        assert(mine.contains(e) <==> ids[k] == a && deps.contains(b)) by {
            if mine.contains(e) {
                let q = choose|q: int| 0 <= q < mine.len() && mine[q] == e;
                assert(mine[q] == (ids[k], deps[q]));
                assert(deps.contains(deps[q]));
            }
            if ids[k] == a && deps.contains(b) {
                let q = choose|q: int| 0 <= q < deps.len() && deps[q] == b;
                assert(mine[q] == e);
            }
        }
        assert(next.contains(e) <==> so_far.contains(e) || mine.contains(e)) by {
            if so_far.contains(e) {
                let q = choose|q: int| 0 <= q < so_far.len() && so_far[q] == e;
                assert(next[q] == e);
            }
            if mine.contains(e) {
                let q = choose|q: int| 0 <= q < mine.len() && mine[q] == e;
                assert(next[so_far.len() + q] == e);
            }
            if next.contains(e) {
                let q = choose|q: int| 0 <= q < next.len() && next[q] == e;
                if q < so_far.len() {
                    assert(so_far[q] == e);
                } else {
                    assert(mine[q - so_far.len()] == e);
                }
            }
        }
        if mine.contains(e) {
            let (j, m) = choose|j: int, m: int| #[trigger]
                names_dependency(p, k, j, m) && 0 <= j && ids[m] == b;
            assert(names_dependency(p, k, j, m) && k <= k && ids[k] == a && ids[m] == b);
        }
        if exists|n: int, j: int, m: int| #[trigger]
            names_dependency(p, n, j, m) && k <= n && ids[n] == a && ids[m] == b {
            let (n, j, m) = choose|n: int, j: int, m: int| #[trigger]
                names_dependency(p, n, j, m) && k <= n && ids[n] == a && ids[m] == b;
            if n == k {
                assert(names_dependency(p, k, j, m) && 0 <= j && ids[m] == b);
                assert(deps.contains(b));
            } else {
                assert(names_dependency(p, n, j, m) && k + 1 <= n && ids[n] == a && ids[m] == b);
            }
        }
    }
}

/// A node is made as it was proposed.
pub proof fn nodes_are_made_as_proposed(p: Seq<NodeProposalView>, ids: Seq<TaskNodeId>, i: int)
    requires
        0 <= i < p.len(),
    ensures
        ({
            let n = made_nodes(p, ids)[i];
            &&& n.id == ids[i] && n.key == p[i].key && n.description == p[i].description
            &&& n.expected_output == p[i].expected_output
            &&& n.requirements == p[i].requirements && n.limits == p[i].limits
            &&& n.deadline_at == p[i].deadline_at
        }),
        made_nodes(p, ids).len() == p.len(),
{
}

/// The nodes of a graph are accepted exactly if each is in order, no two share a
/// key, and no deadline has passed when the graph is made.
pub proof fn accepted_nodes_are_in_order(nodes: Seq<NodeView>, now: TimestampMillis)
    ensures
        first_node_flaw(nodes, now, 0) is None <==> {
            &&& forall|i: int| 0 <= i < nodes.len() ==> (#[trigger] nodes[i]).flaw() is None
            &&& forall|i: int, j: int|
                0 <= i < j < nodes.len() ==> (#[trigger] nodes[i]).key != (#[trigger] nodes[j]).key
            &&& forall|i: int|
                0 <= i < nodes.len() ==> ((#[trigger] nodes[i]).deadline_at matches Some(t)
                    ==> now.value < t.value)
        },
{
    if first_node_flaw(nodes, now, 0) is None {
        assert forall|i: int| 0 <= i < nodes.len() implies {
            &&& (#[trigger] nodes[i]).flaw() is None
            &&& !name_taken(nodes, nodes[i].key, i)
            &&& !deadline_passed(nodes[i].deadline_at, now)
        } by {
            accepted_node(nodes, now, 0, i);
        }
        assert forall|i: int, j: int| 0 <= i < j < nodes.len() implies (#[trigger] nodes[i]).key != (
        #[trigger] nodes[j]).key by {
            assert(!name_taken(nodes, nodes[j].key, j));
        }
    } else {
        let k = refused_node(nodes, now, 0);
        if name_taken(nodes, nodes[k].key, k) {
            let j = choose|j: int| 0 <= j < k && (#[trigger] nodes[j]).key == nodes[k].key;
            assert(nodes[j].key == nodes[k].key);
        }
    }
}

proof fn accepted_node(nodes: Seq<NodeView>, now: TimestampMillis, from: int, i: int)
    requires
        first_node_flaw(nodes, now, from) is None,
        0 <= from <= i < nodes.len(),
    ensures
        nodes[i].flaw() is None,
        !name_taken(nodes, nodes[i].key, i),
        !deadline_passed(nodes[i].deadline_at, now),
    decreases nodes.len() - from,
{
    if from < i {
        accepted_node(nodes, now, from + 1, i);
    }
}

proof fn refused_node(nodes: Seq<NodeView>, now: TimestampMillis, from: int) -> (k: int)
    requires
        first_node_flaw(nodes, now, from) is Some,
        0 <= from,
    ensures
        from <= k < nodes.len(),
        nodes[k].flaw() is Some || name_taken(nodes, nodes[k].key, k) || deadline_passed(
            nodes[k].deadline_at,
            now,
        ),
    decreases nodes.len() - from,
{
    if nodes[from].flaw() is Some || name_taken(nodes, nodes[from].key, from) || deadline_passed(
        nodes[from].deadline_at,
        now,
    ) {
        from
    } else {
        refused_node(nodes, now, from + 1)
    }
}

/// The value that is digested holds all of a graph but the digest: who made it
/// and when, and of each node what it says and what it depends on.
pub proof fn digested_values_tell_graphs_apart(a: GraphView, b: GraphView)
    requires
        a.json() == b.json(),
        a.dependencies.len() == a.nodes.len(),
        b.dependencies.len() == b.nodes.len(),
    ensures
        b == (GraphView { digest: b.digest, ..a }),
{
    let x = a.json()->Object_0;
    let y = b.json()->Object_0;
    assert(x[1].1 == y[1].1);
    assert(x[2].1 == y[2].1);
    assert(x[3].1 == y[3].1);
    assert(x[4].1 == y[4].1);
    assert(x[5].1 == y[5].1);
    assert(x[6].1 == y[6].1);
    assert(x[7].1 == y[7].1);
    uuid_text_is_injective(a.orchestration_id.value, b.orchestration_id.value);
    uuid_text_is_injective(a.workspace_id.value, b.workspace_id.value);
    let u = node_items(a.nodes, a.dependencies);
    let v = node_items(b.nodes, b.dependencies);
    assert(u == v);
    assert(u.len() == a.nodes.len() && v.len() == b.nodes.len());
    assert forall|i: int| 0 <= i < a.nodes.len() implies #[trigger] a.nodes[i] == b.nodes[i]
        && a.dependencies[i] == b.dependencies[i] by {
        assert(u[i] == v[i]);
        node_values_are_told_apart(a.nodes[i], a.dependencies[i], b.nodes[i], b.dependencies[i]);
    }
    assert(a.nodes =~= b.nodes);
    assert forall|i: int| 0 <= i < a.dependencies.len() implies #[trigger] a.dependencies[i]
        == b.dependencies[i] by {
        assert(a.nodes[i] == b.nodes[i]);
    }
    assert(a.dependencies =~= b.dependencies);
}

proof fn node_values_are_told_apart(
    a: NodeView,
    c: Seq<TaskNodeId>,
    b: NodeView,
    d: Seq<TaskNodeId>,
)
    requires
        node_json(a, c) == node_json(b, d),
    ensures
        a == b,
        c == d,
{
    let x = node_json(a, c)->Object_0;
    let y = node_json(b, d)->Object_0;
    assert(x[0].1 == y[0].1);
    assert(x[1].1 == y[1].1);
    assert(x[2].1 == y[2].1);
    assert(x[3].1 == y[3].1);
    assert(x[4].1 == y[4].1);
    assert(x[5].1 == y[5].1);
    assert(x[6].1 == y[6].1);
    assert(x[7].1 == y[7].1);
    uuid_text_is_injective(a.id.value, b.id.value);
    task_output_kind_names_differ(a.expected_output, b.expected_output);
    requirement_values_are_told_apart(a.requirements, b.requirements);
    limit_values_are_told_apart(a.limits, b.limits);
    let u = id_items(c);
    let v = id_items(d);
    assert(u == v);
    assert(u.len() == c.len() && v.len() == d.len());
    assert forall|i: int| 0 <= i < c.len() implies #[trigger] c[i] == d[i] by {
        assert(u[i] == v[i]);
        assert(u[i] == JsonView::Str(uuid_text(c[i].value)));
        assert(v[i] == JsonView::Str(uuid_text(d[i].value)));
        uuid_text_is_injective(c[i].value, d[i].value);
    }
    assert(c =~= d);
}

/// The nodes of a proposal are accepted exactly if each is in order, no two
/// share a key, and no deadline has passed.
pub proof fn accepted_proposals_are_in_order(p: Seq<NodeProposalView>, now: TimestampMillis)
    ensures
        first_proposal_flaw(p, now, 0) is None <==> {
            &&& forall|i: int| 0 <= i < p.len() ==> (#[trigger] p[i]).flaw() is None
            &&& forall|i: int, j: int|
                0 <= i < j < p.len() ==> (#[trigger] p[i]).key != (#[trigger] p[j]).key
            &&& forall|i: int|
                0 <= i < p.len() ==> ((#[trigger] p[i]).deadline_at matches Some(t) ==> now.value
                    < t.value)
        },
{
    if first_proposal_flaw(p, now, 0) is None {
        assert forall|i: int| 0 <= i < p.len() implies {
            &&& (#[trigger] p[i]).flaw() is None
            &&& !proposed_before(p, p[i].key, i)
            &&& !deadline_passed(p[i].deadline_at, now)
        } by {
            accepted_proposal(p, now, 0, i);
        }
        assert forall|i: int, j: int| 0 <= i < j < p.len() implies (#[trigger] p[i]).key != (
        #[trigger] p[j]).key by {
            assert(!proposed_before(p, p[j].key, j));
        }
    } else {
        let k = refused_proposal(p, now, 0);
        if proposed_before(p, p[k].key, k) {
            let j = choose|j: int| 0 <= j < k && (#[trigger] p[j]).key == p[k].key;
            assert(p[j].key == p[k].key);
        }
    }
}

proof fn accepted_proposal(p: Seq<NodeProposalView>, now: TimestampMillis, from: int, i: int)
    requires
        first_proposal_flaw(p, now, from) is None,
        0 <= from <= i < p.len(),
    ensures
        p[i].flaw() is None,
        !proposed_before(p, p[i].key, i),
        !deadline_passed(p[i].deadline_at, now),
    decreases p.len() - from,
{
    if from < i {
        accepted_proposal(p, now, from + 1, i);
    }
}

proof fn refused_proposal(p: Seq<NodeProposalView>, now: TimestampMillis, from: int) -> (k: int)
    requires
        first_proposal_flaw(p, now, from) is Some,
        0 <= from,
    ensures
        from <= k < p.len(),
        p[k].flaw() is Some || proposed_before(p, p[k].key, k) || deadline_passed(
            p[k].deadline_at,
            now,
        ),
    decreases p.len() - from,
{
    if p[from].flaw() is Some || proposed_before(p, p[from].key, from) || deadline_passed(
        p[from].deadline_at,
        now,
    ) {
        from
    } else {
        refused_proposal(p, now, from + 1)
    }
}

/// The table of some nodes holds only those, and the last of them for certain.
proof fn tables_hold_the_nodes(list: Seq<NodeView>)
    ensures
        forall|n: NodeView| #[trigger] node_table(list).contains(n) ==> list.contains(n),
        node_table(list).len() == list.len() ==> forall|i: int|
            0 <= i < list.len() ==> node_table(list).contains(#[trigger] list[i]),
    decreases list.len(),
{
    if list.len() > 0 {
        let init = list.drop_last();
        let h = node_table(init);
        let n = list.last();
        tables_hold_the_nodes(init);
        node_table_ascends(init);
        node_slot_parts(h, n.id, 0);
        let at = node_slot(h, n.id, 0);
        let r = node_table(list);
        assert(r[at] == n);
        assert forall|m: NodeView| #[trigger] r.contains(m) implies list.contains(m) by {
            let k = choose|k: int| 0 <= k < r.len() && r[k] == m;
            if k == at {
                assert(list[list.len() - 1] == m);
            } else {
                if at < h.len() && h[at].id == n.id {
                    assert(h[k] == m);
                } else if k < at {
                    assert(h[k] == m);
                } else {
                    assert(h[k - 1] == m);
                }
                assert(h.contains(m));
                let j = choose|j: int| 0 <= j < init.len() && init[j] == m;
                assert(list[j] == m);
            }
        }
        if r.len() == list.len() {
            assert forall|i: int| 0 <= i < list.len() implies r.contains(#[trigger] list[i]) by {
                if i == list.len() - 1 {
                    assert(r[at] == list[i]);
                } else {
                    assert(init[i] == list[i]);
                    let k = choose|k: int| 0 <= k < h.len() && h[k] == list[i];
                    if k < at {
                        assert(r[k] == list[i]);
                    } else {
                        assert(r[k + 1] == list[i]);
                    }
                }
            }
        }
    }
}

/// A graph read from a store is the one that was stored: it has the digest that
/// was expected, which is that of its content, holds every stored node and no
/// other, no two of them with one identity, and is of the orchestration, the
/// workspace and the revision that were asked for, by whom and when it was made.
pub proof fn stored_graphs_are_what_was_stored(
    orchestration_id: OrchestrationId,
    workspace_id: WorkspaceId,
    revision: u64,
    created_by: PrincipalView,
    created_at: TimestampMillis,
    nodes: Seq<NodeView>,
    edges: Seq<(TaskNodeId, TaskNodeId)>,
    expected: Seq<char>,
)
    ensures
        stored_graph(
            orchestration_id,
            workspace_id,
            revision,
            created_by,
            created_at,
            nodes,
            edges,
            expected,
        ) matches Ok(g) ==> {
            &&& g.digest == expected && g.content_digest() == expected
            &&& g.orchestration_id == orchestration_id && g.workspace_id == workspace_id
            &&& g.revision == revision && revision > 0
            &&& g.created_by == created_by && g.created_at == created_at
            &&& g.nodes.len() == nodes.len() && 0 < nodes.len() <= MAX_TASK_NODES
            &&& forall|i: int| 0 <= i < nodes.len() ==> g.nodes.contains(#[trigger] nodes[i])
            &&& forall|n: NodeView| #[trigger] g.nodes.contains(n) ==> nodes.contains(n)
            &&& nodes_ascend(g.nodes)
        },
{
    tables_hold_the_nodes(nodes);
    node_table_ascends(nodes);
}

/// A graph that was proposed is of the orchestration, the workspace and the
/// revision that were given, by whom and when it was proposed, holds a node for
/// each task of the proposal, where no two identities are the same, and no
/// other.
pub proof fn proposed_graphs_hold_the_proposal(
    ids: Seq<TaskNodeId>,
    orchestration_id: OrchestrationId,
    workspace_id: WorkspaceId,
    revision: u64,
    created_by: PrincipalView,
    p: Seq<NodeProposalView>,
    created_at: TimestampMillis,
)
    ensures
        proposed_graph(
            ids,
            orchestration_id,
            workspace_id,
            revision,
            created_by,
            p,
            created_at,
        ) matches Ok(g) ==> {
            &&& g.orchestration_id == orchestration_id && g.workspace_id == workspace_id
            &&& g.revision == revision && revision > 0
            &&& g.created_by == created_by && g.created_at == created_at
            &&& 0 < p.len() <= MAX_TASK_NODES
            &&& g.digest == g.content_digest()
            &&& forall|n: NodeView| #[trigger]
                g.nodes.contains(n) ==> exists|i: int|
                    0 <= i < p.len() && n.id == ids[i] && n.key == (#[trigger] p[i]).key
                        && n.description == p[i].description && n.requirements == p[i].requirements
                        && n.limits == p[i].limits && n.deadline_at == p[i].deadline_at
                        && n.expected_output == p[i].expected_output
            &&& g.nodes.len() == p.len() ==> forall|i: int|
                0 <= i < p.len() ==> g.nodes.contains(made_node(#[trigger] p[i], ids[i]))
        },
{
    let made = made_nodes(p, ids);
    tables_hold_the_nodes(made);
    let table = node_table(made);
    assert forall|n: NodeView| #[trigger] table.contains(n) implies exists|i: int|
        0 <= i < p.len() && n.id == ids[i] && n.key == (#[trigger] p[i]).key && n.description
            == p[i].description && n.requirements == p[i].requirements && n.limits == p[i].limits
            && n.deadline_at == p[i].deadline_at && n.expected_output == p[i].expected_output by {
        let i = choose|i: int| 0 <= i < made.len() && made[i] == n;
        assert(n == made_node(p[i], ids[i]));
    }
    if table.len() == p.len() {
        assert forall|i: int| 0 <= i < p.len() implies table.contains(
            made_node(#[trigger] p[i], ids[i]),
        ) by {
            assert(made[i] == made_node(p[i], ids[i]));
        }
    }
}

/// The first states of a graph are one for each task in the order of the tasks,
/// each of this revision of the graph and without an attempt. A task is ready at
/// once exactly if it depends on nothing, and otherwise pending.
pub proof fn first_states_cover_the_tasks(g: GraphView, at: TimestampMillis, i: int)
    requires
        g.wf(),
        0 <= i < g.nodes.len(),
    ensures
        ({
            let states = initial_states(g, at);
            let s = states[i];
            &&& states.len() == g.nodes.len()
            &&& s.task_node_id == order_of(g.nodes, g.dependencies)[i]
            &&& s.orchestration_id == g.orchestration_id && s.graph_revision == g.revision
            &&& s.attempt_count == 0 && s.created_at == at && s.revision == 1
            &&& s.state == TaskNodeState::Ready || s.state == TaskNodeState::Pending
            &&& forall|k: int|
                0 <= k < g.nodes.len() && (#[trigger] g.nodes[k]).id == s.task_node_id ==> (s.state
                    == TaskNodeState::Ready <==> g.dependencies[k].len() == 0)
        }),
{
    let id = order_of(g.nodes, g.dependencies)[i];
    position_stands(g.nodes, id, 0);
    assert forall|k: int| 0 <= k < g.nodes.len() && (#[trigger] g.nodes[k]).id == id implies position(
        g.nodes,
        id,
        0,
    ) == Some(k) by {
        let p = position(g.nodes, id, 0)->0;
        if k < p {
            assert(g.nodes[k].id.value < g.nodes[p].id.value);
        } else if p < k {
            assert(g.nodes[p].id.value < g.nodes[k].id.value);
        }
    }
}

} // verus!
