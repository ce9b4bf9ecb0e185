//! Worker artifacts and retries.

use lumen_core::action::RunId;
use lumen_core::approval::TimestampMillis;
use lumen_core::artifact::{
    retry_disposition, ArtifactError, ArtifactId, ArtifactKind, ArtifactProvenance,
    ArtifactValidationState, EffectRisk, FailureClass, RetryDisposition, RetryMode, WorkerArtifact,
};
use lumen_core::context::{CompartmentId, ContextDigest, ContextSourceId, ProjectionId};
use lumen_core::egress::{DataClass, ProviderId};
use lumen_core::identity::{PrincipalId, WorkspaceId};
use lumen_core::orchestration::{OrchestrationId, TaskNodeId, TaskOutputKind};
use lumen_core::provider::ModelProfileId;
use lumen_core::worker::WorkerAttemptId;

#[test]
fn retry_is_effect_conservative() {
    assert_eq!(
        retry_disposition(FailureClass::ModelFailure, EffectRisk::NoEffect, false),
        RetryDisposition::Reassign
    );
    assert_eq!(
        retry_disposition(FailureClass::ModelFailure, EffectRisk::UnknownEffect, false),
        RetryDisposition::ReconciliationRequired
    );
    assert_eq!(
        retry_disposition(FailureClass::ModelFailure, EffectRisk::KnownEffect, true),
        RetryDisposition::ManualOnly
    );
}

fn provenance() -> ArtifactProvenance {
    ArtifactProvenance::new(
        OrchestrationId::from_uuid(1),
        1,
        TaskNodeId::from_uuid(2),
        WorkerAttemptId::from_uuid(3),
        RunId::from_uuid(4),
        ProviderId::parse("local".to_string()).unwrap(),
        1,
        ModelProfileId::parse("coder".to_string()).unwrap(),
        1,
        None,
        1,
        ProjectionId::from_uuid(5),
        ContextDigest::from_text("projection"),
        vec![],
    )
    .unwrap()
}

fn artifact(content: Vec<u8>, class: DataClass) -> Result<WorkerArtifact, ArtifactError> {
    WorkerArtifact::new(
        ArtifactId::from_uuid(0x550e8400_e29b_41d4_a716_446655440000),
        WorkspaceId::from_uuid(1),
        ArtifactKind::Blob,
        "application/octet-stream".to_string(),
        content,
        class,
        vec![CompartmentId::parse("workspace/source-code".to_string()).unwrap()],
        provenance(),
        TimestampMillis::new(9),
    )
}

#[test]
fn artifacts_are_bound_to_their_content() {
    let mut a = artifact(b"abc".to_vec(), DataClass::Workspace).unwrap();
    assert_eq!(
        a.content_hash.as_str(),
        "ba7816bf8f01cfea414140de5dae2223b00361a396177a9cb410ff61f20015ad"
    );
    a.verify().unwrap();
    a.content.push(b'd');
    assert!(matches!(a.verify(), Err(ArtifactError::DigestMismatch)));
    assert!(matches!(
        artifact(b"abc".to_vec(), DataClass::Secret),
        Err(ArtifactError::SecretArtifactDenied)
    ));
    assert!(matches!(
        artifact(vec![], DataClass::Public),
        Err(ArtifactError::InvalidContent)
    ));
}

#[test]
fn references_show_a_bounded_preview() {
    let a = artifact(vec![b'a', b'b', 0xff, b'c'], DataClass::Workspace).unwrap();
    let r = a.reference(3).unwrap();
    assert_eq!(r.preview, "ab\u{fffd}");
    assert!(r.truncated);
    assert_eq!(r.classification, DataClass::Workspace);
    assert!(!a.reference(4).unwrap().truncated);
    assert!(matches!(
        a.reference(0),
        Err(ArtifactError::InvalidPreviewLimit)
    ));
    assert!(r.uri.contains("550e8400-e29b-41d4-a716-446655440000"));
}

#[test]
fn text_artifacts_carry_the_media_type_of_their_kind() {
    let a = WorkerArtifact::from_text(
        ArtifactId::from_uuid(1),
        WorkspaceId::from_uuid(1),
        ArtifactKind::Patch,
        "diff",
        DataClass::Public,
        vec![],
        provenance(),
        TimestampMillis::new(9),
    )
    .unwrap();
    assert_eq!(a.media_type, ArtifactKind::Patch.media());
    assert_eq!(a.content, b"diff");
}

#[test]
fn dispositions_name_their_modes() {
    assert!(RetryDisposition::Either.allows(RetryMode::SameWorker));
    assert!(RetryDisposition::Either.allows(RetryMode::Reassign));
    assert!(RetryDisposition::Reassign.allows(RetryMode::Reassign));
    assert!(!RetryDisposition::Reassign.allows(RetryMode::SameWorker));
    assert!(!RetryDisposition::ManualOnly.allows(RetryMode::SameWorker));
}

#[test]
fn references_become_sources_of_context() {
    let a = artifact(b"abc".to_vec(), DataClass::Sensitive).unwrap();
    let reference = a
        .reference(2)
        .unwrap()
        .with_validation(Some(ArtifactValidationState::Accepted));
    assert_eq!(
        reference.validation_state,
        Some(ArtifactValidationState::Accepted)
    );
    let source = reference
        .to_context_source(
            ContextSourceId::from_uuid(6),
            WorkspaceId::from_uuid(1),
            PrincipalId::new("local".to_string(), "operator".to_string()).unwrap(),
            TimestampMillis::new(10),
        )
        .unwrap();
    assert_eq!(source.classification(), DataClass::Sensitive);
    assert_eq!(source.compartments().len(), 1);
    assert_eq!(source.created_at(), TimestampMillis::new(10));
}

#[test]
fn outputs_of_tasks_have_kinds() {
    assert_eq!(
        ArtifactKind::from_task_output(TaskOutputKind::Plan),
        ArtifactKind::TaskPlan
    );
    assert_eq!(
        ArtifactKind::from_task_output(TaskOutputKind::Artifact),
        ArtifactKind::Blob
    );
}
