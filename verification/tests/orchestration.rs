//! Task graphs, their states and operator controls.

use lumen_core::action::ActionKind;
use lumen_core::approval::TimestampMillis;
use lumen_core::context::{CompartmentId, ContextDigest, ModelDataPolicy};
use lumen_core::egress::{DataClass, ProviderId};
use lumen_core::identity::{PrincipalId, WorkspaceId};
use lumen_core::model::ReasoningProfile;
use lumen_core::operator::OrchestrationControlPolicy;
use lumen_core::orchestration::graph::TaskGraph;
use lumen_core::orchestration::state::{OrchestrationSnapshot, TaskStateRevision};
use lumen_core::orchestration::{
    ModelProfileRef, OrchestrationError, OrchestrationId, TaskGraphProposal, TaskNode, TaskNodeId,
    TaskNodeKey, TaskNodeLimits, TaskNodeProposal, TaskNodeState, TaskOutputKind,
    TaskRequirements,
};
use lumen_core::provider::{
    ModelCapabilities, ModelCapability, ModelProfile, ModelProfileId, ModelTrustZone,
};

const WORKSPACE: WorkspaceId = WorkspaceId { value: 1 };

fn key(value: &str) -> TaskNodeKey {
    TaskNodeKey::parse(value.to_string()).unwrap()
}

fn actor() -> PrincipalId {
    PrincipalId::new("local".to_string(), "operator".to_string()).unwrap()
}

fn profile_id() -> ModelProfileId {
    ModelProfileId::parse("coder".to_string()).unwrap()
}

fn requirements(class: DataClass) -> Result<TaskRequirements, OrchestrationError> {
    TaskRequirements::new(
        ModelCapabilities::new(vec![ModelCapability::Text]),
        vec![ModelProfileRef::new(profile_id(), 1).unwrap()],
        class,
        vec![CompartmentId::parse("workspace/source-code".to_string()).unwrap()],
        vec![ActionKind::new("fs.read".to_string()).unwrap()],
    )
}

fn limits() -> TaskNodeLimits {
    TaskNodeLimits::new(1000, 1000, 2).unwrap()
}

fn task(name: &str, depends_on: Vec<&str>) -> TaskNodeProposal {
    TaskNodeProposal::new(
        key(name),
        "do it".to_string(),
        TaskOutputKind::Patch,
        depends_on.into_iter().map(key).collect(),
        requirements(DataClass::Workspace).unwrap(),
        limits(),
        None,
    )
    .unwrap()
}

fn graph(tasks: Vec<TaskNodeProposal>) -> Result<TaskGraph, OrchestrationError> {
    TaskGraph::from_proposal_as(
        &(0..tasks.len())
            .map(|i| TaskNodeId::from_uuid(i as u128 + 1))
            .collect(),
        OrchestrationId::from_uuid(9),
        WORKSPACE,
        1,
        actor(),
        TaskGraphProposal::new(tasks),
        TimestampMillis::new(5),
    )
}

#[test]
fn graphs_without_cycles_are_accepted() {
    let g = graph(vec![
        task("plan", vec![]),
        task("code", vec!["plan"]),
        task("review", vec!["plan", "code"]),
    ])
    .unwrap();
    assert_eq!(g.nodes().len(), 3);
    assert_eq!(g.dependency_edges().len(), 3);
    g.verify_digest().unwrap();
}

#[test]
fn bad_graphs_are_refused() {
    assert!(matches!(
        graph(vec![]),
        Err(OrchestrationError::InvalidTaskCount)
    ));
    assert!(matches!(
        graph(vec![task("a", vec!["b"]), task("b", vec!["a"])]),
        Err(OrchestrationError::CycleDetected)
    ));
    assert!(matches!(
        graph(vec![task("a", vec![]), task("a", vec![])]),
        Err(OrchestrationError::DuplicateTaskKey(_))
    ));
    assert!(matches!(
        graph(vec![task("a", vec!["ghost"])]),
        Err(OrchestrationError::UnknownDependency { .. })
    ));
    assert!(matches!(
        requirements(DataClass::Secret),
        Err(OrchestrationError::SecretModelContextDenied)
    ));
    assert!(matches!(
        TaskNodeLimits::new(0, 1, 1),
        Err(OrchestrationError::InvalidLimits)
    ));
}

#[test]
fn stored_graphs_are_restored() {
    let g = graph(vec![task("plan", vec![]), task("code", vec!["plan"])]).unwrap();
    let nodes = || -> Vec<TaskNode> { g.nodes().to_vec() };
    let digest = || ContextDigest::parse(g.digest().as_str().to_string()).unwrap();
    let restore = |edges: Vec<(TaskNodeId, TaskNodeId)>| {
        TaskGraph::from_stored_parts(
            OrchestrationId::from_uuid(9),
            WORKSPACE,
            1,
            actor(),
            TimestampMillis::new(5),
            nodes(),
            edges,
            digest(),
        )
    };
    let again = restore(g.dependency_edges()).unwrap();
    assert_eq!(again, g);
    assert!(matches!(
        restore(vec![]),
        Err(OrchestrationError::DigestMismatch)
    ));
}

fn profile() -> ModelProfile {
    ModelProfile::new(
        profile_id(),
        1,
        ProviderId::parse("local".to_string()).unwrap(),
        1,
        "model".to_string(),
        true,
        ModelCapabilities::new(vec![ModelCapability::Text, ModelCapability::ToolCalling]),
        32_000,
        ModelTrustZone::LocalRestricted,
        1,
        0,
    )
    .unwrap()
}

fn policy(class: DataClass) -> ModelDataPolicy {
    ModelDataPolicy::new(
        WORKSPACE,
        profile_id(),
        1,
        ModelTrustZone::LocalRestricted,
        1,
        vec![class],
        vec![CompartmentId::parse("workspace/source-code".to_string()).unwrap()],
        true,
        TimestampMillis::new(2),
    )
    .unwrap()
}

#[test]
fn catalogs_must_offer_an_eligible_profile() {
    let g = graph(vec![task("plan", vec![])]).unwrap();
    g.validate_against_catalog(&[profile()], &[policy(DataClass::Workspace)])
        .unwrap();
    assert!(g
        .validate_against_catalog(&[profile()], &[policy(DataClass::Public)])
        .is_err());
    assert!(g.validate_against_catalog(&[], &[]).is_err());
}

fn end(revision: &TaskStateRevision, states: &[TaskNodeState]) -> TaskStateRevision {
    let mut r = revision.clone();
    for s in states {
        r = r.transition(*s, 2, TimestampMillis::new(7)).unwrap();
    }
    r
}

#[test]
fn readiness_follows_completion() {
    let g = graph(vec![task("plan", vec![]), task("code", vec!["plan"])]).unwrap();
    let first = g.initial_state_revisions(TimestampMillis::new(6));
    let state_of = |list: &[TaskStateRevision], name: &str| {
        let id = g.nodes().iter().find(|n| n.key().as_str() == name).unwrap().id();
        list.iter().find(|s| s.task_node_id() == id).unwrap().clone()
    };
    let plan = state_of(&first, "plan");
    let code = state_of(&first, "code");
    assert_eq!(plan.state(), TaskNodeState::Ready);
    assert_eq!(code.state(), TaskNodeState::Pending);

    let done = end(&plan, &[TaskNodeState::Running, TaskNodeState::Completed]);
    assert_eq!(done.attempt_count(), 1);
    let snapshot = OrchestrationSnapshot::new(g, vec![done, code]).unwrap();
    let updates = snapshot.readiness_updates(TimestampMillis::new(8)).unwrap();
    assert_eq!(updates.len(), 1);
    assert_eq!(updates[0].state(), TaskNodeState::Ready);
    assert_eq!(updates[0].revision(), 2);
}

#[test]
fn attempts_are_bounded() {
    let r = TaskStateRevision::initial(
        OrchestrationId::from_uuid(9),
        1,
        TaskNodeId::from_uuid(1),
        TaskNodeState::Ready,
        TimestampMillis::new(6),
    );
    assert!(matches!(
        r.transition(TaskNodeState::Running, 0, TimestampMillis::new(9)),
        Err(OrchestrationError::AttemptLimitExceeded)
    ));
    let running = end(&r, &[TaskNodeState::Running]);
    assert_eq!(running.attempt_count(), 1);
    assert_eq!(running.revision(), 2);
    assert!(matches!(
        end(&running, &[TaskNodeState::Failed]).transition(
            TaskNodeState::Ready,
            2,
            TimestampMillis::new(9)
        ),
        Err(OrchestrationError::InvalidStateTransition { .. })
    ));
    let done = end(&r, &[TaskNodeState::Running, TaskNodeState::Completed]);
    assert!(done
        .transition(TaskNodeState::Running, 5, TimestampMillis::new(9))
        .is_err());
}

#[test]
fn operators_may_only_tighten() {
    let policy = |revision: u64, remote: bool, local: bool| {
        OrchestrationControlPolicy::new(
            OrchestrationId::from_uuid(9),
            revision,
            remote,
            local,
            ReasoningProfile::Fast,
            TimestampMillis::new(1),
        )
        .unwrap()
    };
    assert!(policy(2, false, true).is_tightening_of(&policy(1, true, false)));
    assert!(!policy(2, true, false).is_tightening_of(&policy(1, false, false)));
    assert!(OrchestrationControlPolicy::new(
        OrchestrationId::from_uuid(9),
        0,
        true,
        true,
        ReasoningProfile::Fast,
        TimestampMillis::new(1)
    )
    .is_err());
}

#[test]
fn fresh_graphs_have_fresh_identities() {
    let build = || {
        TaskGraph::from_proposal(
            OrchestrationId::from_uuid(9),
            WORKSPACE,
            1,
            actor(),
            TaskGraphProposal::new(vec![task("plan", vec![]), task("code", vec!["plan"])]),
            TimestampMillis::new(5),
        )
        .unwrap()
    };
    let (a, b) = (build(), build());
    assert_eq!(a.orchestration_id(), OrchestrationId::from_uuid(9));
    assert_eq!(a.nodes().len(), 2);
    assert_ne!(a.nodes()[0].id(), b.nodes()[0].id());
    assert!(a.node(a.nodes()[1].id()).is_some());
    assert!(a.node(b.nodes()[0].id()).is_none());
}

#[test]
fn references_name_one_revision_of_a_profile() {
    let reference = ModelProfileRef::from_profile(&profile());
    assert!(reference.matches(&profile()));
    assert!(!ModelProfileRef::new(profile_id(), 2).unwrap().matches(&profile()));
}
