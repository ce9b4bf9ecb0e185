//! Context sources, data policies and task projections.

use lumen_core::action::CanonicalValue;
use lumen_core::approval::TimestampMillis;
use lumen_core::context::projection::{secure_input, validate_port, TaskProjection};
use lumen_core::context::{
    CompartmentId, ContextDigest, ContextError, ContextSource, ContextSourceId, ModelDataPolicy, ProjectionId,
    ProjectionTaskKey, SourceProvenance, SourceProvenanceKind,
};
use lumen_core::egress::{DataClass, ProviderId};
use lumen_core::identity::{PrincipalId, WorkspaceId};
use lumen_core::model::{ModelInput, ModelMessage, ModelRole};
use lumen_core::provider::{
    LocalRuntimeKind, ModelCapabilities, ModelCapability, ModelProfile, ModelProfileId,
    ModelTrustZone, ProviderConfig,
};

fn actor() -> PrincipalId {
    PrincipalId::new("local".to_string(), "operator".to_string()).unwrap()
}

fn compartment(value: &str) -> CompartmentId {
    CompartmentId::parse(value.to_string()).unwrap()
}

fn source(workspace: WorkspaceId, class: DataClass, name: &str) -> ContextSource {
    ContextSource::new(
        ContextSourceId::new(),
        workspace,
        class,
        vec![compartment(name)],
        SourceProvenance::new(SourceProvenanceKind::File, "src/lib.rs".to_string()).unwrap(),
        CanonicalValue::text("source"),
        actor(),
        TimestampMillis::new(1),
    )
    .unwrap()
}

fn setup(workspace: WorkspaceId) -> (ProviderConfig, ModelProfile, ModelDataPolicy) {
    let provider = ProviderConfig::local_openai_compatible(
        ProviderId::parse("local".to_string()).unwrap(),
        1,
        "http://127.0.0.1:11434/v1/",
        LocalRuntimeKind::Ollama,
        true,
        None,
    )
    .unwrap();
    let profile = ModelProfile::new(
        ModelProfileId::parse("coder".to_string()).unwrap(),
        1,
        ProviderId::parse("local".to_string()).unwrap(),
        1,
        "qwen-coder".to_string(),
        true,
        ModelCapabilities::new(vec![ModelCapability::Text, ModelCapability::ToolCalling]),
        32_768,
        ModelTrustZone::LocalRestricted,
        1,
        0,
    )
    .unwrap();
    let policy = ModelDataPolicy::new(
        workspace,
        ModelProfileId::parse("coder".to_string()).unwrap(),
        1,
        profile.trust_zone(),
        1,
        vec![DataClass::Public, DataClass::Workspace],
        vec![compartment("workspace/source-code")],
        true,
        TimestampMillis::new(2),
    )
    .unwrap();
    (provider, profile, policy)
}

#[test]
fn taint_and_policy_are_fail_closed() {
    let workspace = WorkspaceId::new();
    let a = source(workspace, DataClass::Public, "workspace/source-code");
    let b = source(workspace, DataClass::Sensitive, "workspace/customer-acme");
    let derived = ContextSource::derived(
        ContextSourceId::new(),
        workspace,
        "summary".to_string(),
        &[a, b],
        CanonicalValue::text("summary"),
        actor(),
        TimestampMillis::new(3),
    )
    .unwrap();
    assert_eq!(derived.classification(), DataClass::Sensitive);
    let (_, profile, policy) = setup(workspace);
    assert!(matches!(
        policy.allows_source(&profile, &derived),
        Err(ContextError::DataClassDenied)
    ));
    assert!(matches!(
        policy.allows_source(
            &profile,
            &source(workspace, DataClass::Workspace, "workspace/payroll")
        ),
        Err(ContextError::CompartmentDenied)
    ));
}

fn projection(workspace: WorkspaceId) -> (ProviderConfig, ModelProfile, ModelDataPolicy, TaskProjection) {
    let (provider, profile, policy) = setup(workspace);
    let projection = TaskProjection::build(
        ProjectionId::new(),
        ProjectionTaskKey::parse("backend".to_string()).unwrap(),
        &profile,
        &policy,
        vec![source(
            workspace,
            DataClass::Workspace,
            "workspace/source-code",
        )],
        TimestampMillis::new(3),
    )
    .unwrap();
    (provider, profile, policy, projection)
}

#[test]
fn secured_input_leads_with_the_verified_projection() {
    let (provider, profile, policy, projection) = projection(WorkspaceId::new());
    validate_port(&provider, &profile, &policy, &projection).unwrap();
    let input = ModelInput::new(vec![ModelMessage::new(
        ModelRole::User,
        CanonicalValue::text("work"),
    )]);
    let secured = secure_input(&projection, &profile, &policy, input).unwrap();
    assert_eq!(
        secured.messages()[0].content(),
        &CanonicalValue::text(projection.serialized_payload())
    );
    assert_eq!(
        secured.messages()[1].content(),
        &CanonicalValue::text("work")
    );
    assert_eq!(secured.data_class(), DataClass::Workspace);
    let audit = projection.audit_payload().to_json().to_text();
    assert!(audit.contains(projection.digest().as_str()));
    projection.verify_digest().unwrap();
}

#[test]
fn a_projection_is_bound_to_its_policy() {
    let workspace = WorkspaceId::new();
    let (_, profile, _, projection) = projection(workspace);
    let other = ModelDataPolicy::new(
        workspace,
        ModelProfileId::parse("coder".to_string()).unwrap(),
        1,
        profile.trust_zone(),
        2,
        vec![DataClass::Public, DataClass::Workspace],
        vec![compartment("workspace/source-code")],
        true,
        TimestampMillis::new(2),
    )
    .unwrap();
    assert!(matches!(
        projection.validate_for(&profile, &other),
        Err(ContextError::ProjectionBindingMismatch)
    ));
}

#[test]
fn secrets_and_empty_projections_are_refused() {
    let workspace = WorkspaceId::new();
    let (_, profile, policy) = setup(workspace);
    let build = |sources: Vec<ContextSource>| {
        TaskProjection::build(
            ProjectionId::new(),
            ProjectionTaskKey::parse("backend".to_string()).unwrap(),
            &profile,
            &policy,
            sources,
            TimestampMillis::new(3),
        )
    };
    assert!(matches!(build(vec![]), Err(ContextError::EmptyProjection)));
    assert!(matches!(
        build(vec![source(
            workspace,
            DataClass::Secret,
            "workspace/source-code"
        )]),
        Err(ContextError::DataClassDenied)
    ));
    assert!(matches!(
        TaskProjection::from_stored_parts(
            ProjectionId::new(),
            workspace,
            ProjectionTaskKey::parse("backend".to_string()).unwrap(),
            ModelProfileId::parse("coder".to_string()).unwrap(),
            1,
            1,
            vec![source(
                workspace,
                DataClass::Secret,
                "workspace/source-code"
            )],
            TimestampMillis::new(3),
            ContextDigest::from_text("any"),
        ),
        Err(ContextError::SecretSourceDenied)
    ));
    assert!(matches!(
        build(vec![source(
            WorkspaceId::new(),
            DataClass::Public,
            "workspace/source-code"
        )]),
        Err(ContextError::WorkspaceMismatch)
    ));
}

#[test]
fn names_of_compartments_are_checked() {
    assert!(matches!(
        CompartmentId::parse("".to_string()),
        Err(ContextError::InvalidCompartment)
    ));
    assert!(matches!(
        ProjectionTaskKey::parse("".to_string()),
        Err(ContextError::InvalidTaskKey)
    ));
}

#[test]
fn the_order_of_sources_decides_nothing() {
    let workspace = WorkspaceId::new();
    let (_, profile, policy) = setup(workspace);
    let a = source(workspace, DataClass::Public, "workspace/source-code");
    let b = source(workspace, DataClass::Workspace, "workspace/source-code");
    let c = source(workspace, DataClass::Public, "workspace/source-code");
    let id = ProjectionId::new();
    let build = |sources: Vec<ContextSource>| {
        TaskProjection::build(
            id,
            ProjectionTaskKey::parse("backend".to_string()).unwrap(),
            &profile,
            &policy,
            sources,
            TimestampMillis::new(3),
        )
    };
    let one = build(vec![a.clone(), b.clone(), c.clone()]).unwrap();
    let other = build(vec![c.clone(), a.clone(), b.clone()]).unwrap();
    assert_eq!(one, other);
    assert_eq!(one.sources().len(), 3);
    for pair in one.sources().windows(2) {
        assert!(pair[0].source_id().value < pair[1].source_id().value);
    }
    assert_eq!(one.classification(), DataClass::Workspace);
    one.verify_digest().unwrap();
    one.validate_for(&profile, &policy).unwrap();
    // The same source twice is no projection, in any order.
    assert!(build(vec![a.clone(), b.clone(), a.clone()]).is_err());
    assert!(build(vec![a.clone(), a, b]).is_err());
}
