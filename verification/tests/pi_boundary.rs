//! The kernel boundary.

use lumen_core::json::Json;
use lumen_core::ordered::OrderedTable;
use lumen_core::pi_boundary::{
    answer, canonical_digest, canonical_json, canonical_path, path_prefix_covers,
    refuse_long_line, refuse_malformed, reject_peer, ActionEnvelope,
    AuditEventKind, AuditLog, BoundaryError, DecisionOutcome, EffectClasses, InProcessKernel,
    Kernel, KernelWireRequest, LeaseId, LocalKernel, LocalKernelConfig, Obligation, PathResource, PathRights,
    PeerPolicy, ResourceSet, ToolRef, ACTION_ENVELOPE_VERSION, KERNEL_WIRE_PROTOCOL,
};
use std::time::{SystemTime, UNIX_EPOCH};
use uuid::Uuid;

fn now_ms() -> i64 {
    SystemTime::now()
        .duration_since(UNIX_EPOCH)
        .unwrap()
        .as_millis() as i64
}

fn object(members: Vec<(&str, Json)>) -> Json {
    Json::Object(members.into_iter().map(|(k, v)| (k.to_string(), v)).collect())
}

fn arguments(path: &str) -> OrderedTable<Json> {
    let mut arguments = OrderedTable::new();
    arguments.insert("path".to_string(), Json::Str(path.to_string()));
    arguments
}

fn envelope_as(
    action_id: u128,
    nonce: &str,
    expires_at_ms: i64,
    session_id: &str,
    path: &str,
    lease_chain: Vec<LeaseId>,
) -> ActionEnvelope {
    ActionEnvelope {
        version: ACTION_ENVELOPE_VERSION,
        action_id,
        session_id: session_id.to_string(),
        tool: ToolRef {
            name: "bct.read_file".to_string(),
            version: "1".to_string(),
        },
        arguments: arguments(path),
        inputs: vec![],
        resources: ResourceSet {
            paths: vec![PathResource {
                path: path.to_string(),
                rights: PathRights::Read,
            }],
            network: vec![],
            secrets: vec![],
        },
        expected_effects: EffectClasses {
            file_read: true,
            file_write: false,
            network_egress: false,
            network_ingress: false,
            process_spawn: false,
        },
        lease_chain,
        nonce: nonce.to_string(),
        expires_at_ms,
    }
}

fn test_envelope(session_id: &str, path: &str, lease_chain: Vec<LeaseId>) -> ActionEnvelope {
    envelope_as(
        Uuid::new_v4().as_u128(),
        &Uuid::new_v4().to_string(),
        now_ms() + 60_000,
        session_id,
        path,
        lease_chain,
    )
}

fn test_kernel() -> (LocalKernel, LeaseId) {
    let mut kernel = LocalKernel::new(LocalKernelConfig {
        approvable_roots: vec!["/tmp/lumen-approvable".to_string()],
        ..Default::default()
    });
    let lease = kernel
        .issue_root_lease(
            "session-test".to_string(),
            vec!["/tmp/lumen-leased".to_string()],
            vec!["read".to_string()],
            now_ms() + 3_600_000,
        )
        .expect("issue root lease");
    (kernel, lease)
}

#[test]
fn canonical_form_is_digest_stable() {
    let list = || Json::Array(vec![Json::Int(3), Json::Int(2), Json::Int(1)]);
    let a = object(vec![
        ("z", Json::Int(1)),
        ("a", object(vec![("n", Json::Int(2)), ("m", Json::Int(1))])),
        ("list", list()),
    ]);
    let b = object(vec![
        ("list", list()),
        ("a", object(vec![("m", Json::Int(1)), ("n", Json::Int(2))])),
        ("z", Json::Int(1)),
    ]);
    assert_eq!(canonical_json(&a).unwrap(), canonical_json(&b).unwrap());
    assert_eq!(canonical_digest(&a).unwrap(), canonical_digest(&b).unwrap());
    // No whitespace, keys sorted.
    assert_eq!(
        canonical_json(&a).unwrap(),
        r#"{"a":{"m":1,"n":2},"list":[3,2,1],"z":1}"#
    );
}

#[test]
fn canonical_form_rejects_floats() {
    let v = object(vec![("x", Json::Number("1.5".to_string()))]);
    assert!(matches!(
        canonical_json(&v),
        Err(BoundaryError::NonCanonicalValue(_))
    ));
}

#[test]
fn envelope_digest_is_stable_and_sensitive() {
    let (kernel, lease) = test_kernel();
    let make = |path: &str| envelope_as(7, "nonce", 60_000, "session-test", path, vec![lease]);
    let e1 = make("/tmp/lumen-leased/a.txt");
    let mut e2 = make("/tmp/lumen-leased/a.txt");
    assert_eq!(e1.digest().unwrap(), e2.digest().unwrap());

    // Any mutation changes the digest.
    e2.arguments.insert(
        "path".to_string(),
        Json::Str("/tmp/lumen-leased/b.txt".to_string()),
    );
    assert_ne!(e1.digest().unwrap(), e2.digest().unwrap());
    let _ = kernel;
}

#[test]
fn audit_chain_detects_tampering() {
    let (mut kernel, lease) = test_kernel();
    let envelope = test_envelope("session-test", "/tmp/lumen-leased/a.txt", vec![lease]);
    kernel.evaluate(&envelope).expect("evaluate");
    kernel.audit_log().verify().expect("chain verifies");
    // Tamper with a stored event: verification must fail.
    let mut events = kernel.audit_log().events();
    events[0].detail = "forged".to_string();
    assert!(AuditLog::from_events(events).verify().is_err());
}

#[test]
fn verdict_sequences_are_per_evaluation() {
    let (mut kernel, _lease) = test_kernel();
    let mut results: Vec<(String, u64)> = Vec::new();
    for i in 0..8 {
        let lease = kernel
            .issue_root_lease(
                format!("session-{i}"),
                vec!["/tmp/lumen-leased".to_string()],
                vec!["read".to_string()],
                now_ms() + 3_600_000,
            )
            .expect("issue root lease");
        let envelope = test_envelope(
            &format!("session-{i}"),
            "/tmp/lumen-leased/a.txt",
            vec![lease],
        );
        let digest = envelope.digest().unwrap_or_else(|_| "none".to_string());
        let (decision, sequence) = kernel
            .evaluate_with_verdict_sequence(&envelope)
            .expect("evaluate");
        assert!(decision.is_allow());
        results.push((digest, sequence));
    }
    for (digest, sequence) in &results {
        let event = kernel
            .audit_log()
            .get(*sequence)
            .expect("verdict sequence must exist in the log");
        assert_eq!(&event.action_digest, digest);
        assert!(matches!(event.kind, AuditEventKind::PolicyAllowed));
    }
    let mut sequences: Vec<u64> = results.iter().map(|(_, s)| *s).collect();
    sequences.sort_unstable();
    sequences.dedup();
    assert_eq!(sequences.len(), results.len(), "sequences must be distinct");
}

#[test]
fn envelope_validation_rejects_bad_versions_and_paths() {
    let (_, lease) = test_kernel();
    let mut e = test_envelope("s", "/tmp/lumen-leased/a.txt", vec![lease]);
    e.version = 99;
    assert!(e.validate().is_err());
    e.version = ACTION_ENVELOPE_VERSION;
    e.resources.paths[0].path = "relative/path".to_string();
    assert!(e.validate().is_err());
}

#[test]
fn kernel_allows_read_within_lease() {
    let (mut kernel, lease) = test_kernel();
    let envelope = test_envelope("session-test", "/tmp/lumen-leased/a.txt", vec![lease]);
    let decision = kernel.evaluate(&envelope).expect("evaluate");
    assert!(decision.is_allow());
    assert_eq!(decision.summary(), "allow");
    match &decision.outcome {
        DecisionOutcome::Allow { obligations } => {
            assert!(obligations.contains(&Obligation::RedactSecrets));
        }
        _ => panic!("expected allow"),
    }
    // Two audit events: proposed + allowed.
    assert_eq!(kernel.audit_log().len(), 2);
    kernel.audit_log().verify().expect("audit chain verifies");
}

#[test]
fn kernel_denies_read_outside_lease() {
    let (mut kernel, lease) = test_kernel();
    let envelope = test_envelope("session-test", "/etc/passwd", vec![lease]);
    let decision = kernel.evaluate(&envelope).expect("evaluate");
    assert!(!decision.is_allow());
    match &decision.outcome {
        DecisionOutcome::Deny { reason } => {
            assert_eq!(reason.code, "scope_exceeded");
        }
        other => panic!("expected deny, got {other:?}"),
    }
    kernel.audit_log().verify().expect("audit chain verifies");
}

#[test]
fn kernel_returns_pending_for_approvable_path() {
    let (mut kernel, lease) = test_kernel();
    let envelope = test_envelope(
        "session-test",
        "/tmp/lumen-approvable/notes.txt",
        vec![lease],
    );
    let decision = kernel.evaluate(&envelope).expect("evaluate");
    match &decision.outcome {
        DecisionOutcome::PendingApproval { approval_id, .. } => {
            assert!(approval_id.starts_with("apr-"));
        }
        other => panic!("expected pending, got {other:?}"),
    }
    assert_eq!(decision.summary(), "pending");
}

#[test]
fn kernel_denies_with_no_lease_chain() {
    let (mut kernel, _) = test_kernel();
    let envelope = test_envelope("session-test", "/tmp/lumen-leased/a.txt", vec![]);
    let decision = kernel.evaluate(&envelope).expect("evaluate");
    match &decision.outcome {
        DecisionOutcome::Deny { reason } => assert_eq!(reason.code, "no_lease_for_action"),
        other => panic!("expected deny, got {other:?}"),
    }
}

#[test]
fn kernel_denies_unknown_lease() {
    let (mut kernel, _) = test_kernel();
    let envelope = test_envelope(
        "session-test",
        "/tmp/lumen-leased/a.txt",
        vec![LeaseId::new()],
    );
    let decision = kernel.evaluate(&envelope).expect("evaluate");
    match &decision.outcome {
        DecisionOutcome::Deny { reason } => assert_eq!(reason.code, "unknown_lease"),
        other => panic!("expected deny, got {other:?}"),
    }
}

#[test]
fn kernel_denies_replayed_nonce() {
    let (mut kernel, lease) = test_kernel();
    let envelope = test_envelope("session-test", "/tmp/lumen-leased/a.txt", vec![lease]);
    let first = kernel.evaluate(&envelope).expect("evaluate");
    assert!(first.is_allow());
    // Same nonce again → deny, no effect.
    let second = kernel.evaluate(&envelope).expect("evaluate");
    match &second.outcome {
        DecisionOutcome::Deny { reason } => assert_eq!(reason.code, "replay_detected"),
        other => panic!("expected deny, got {other:?}"),
    }
}

#[test]
fn kernel_denies_revoked_lease() {
    let (mut kernel, lease) = test_kernel();
    kernel.revoke_lease(lease).expect("revoke");
    let envelope = test_envelope("session-test", "/tmp/lumen-leased/a.txt", vec![lease]);
    let decision = kernel.evaluate(&envelope).expect("evaluate");
    match &decision.outcome {
        DecisionOutcome::Deny { reason } => assert_eq!(reason.code, "lease_revoked"),
        other => panic!("expected deny, got {other:?}"),
    }
}

#[test]
fn kernel_denies_subject_mismatch() {
    let (mut kernel, lease) = test_kernel();
    let envelope = test_envelope("session-impostor", "/tmp/lumen-leased/a.txt", vec![lease]);
    let decision = kernel.evaluate(&envelope).expect("evaluate");
    match &decision.outcome {
        DecisionOutcome::Deny { reason } => assert_eq!(reason.code, "subject_mismatch"),
        other => panic!("expected deny, got {other:?}"),
    }
}

#[test]
fn kernel_denies_path_traversal_escape() {
    let (mut kernel, lease) = test_kernel();
    // Lexical canonicalization collapses the traversal; the resolved path
    // is outside the lease → deny.
    let envelope = test_envelope(
        "session-test",
        "/tmp/lumen-leased/../secret.txt",
        vec![lease],
    );
    let decision = kernel.evaluate(&envelope).expect("evaluate");
    assert!(!decision.is_allow());
}

#[test]
fn child_lease_narrowing_is_enforced() {
    let (mut kernel, root) = test_kernel();
    // Valid child.
    let child = kernel
        .issue_child_lease(
            root,
            "session-child".to_string(),
            vec!["/tmp/lumen-leased/sub".to_string()],
            vec!["read".to_string()],
            now_ms() + 1_000_000,
        )
        .expect("issue child");
    // Child wider than parent → refused at issuance.
    assert!(
        kernel
            .issue_child_lease(
                root,
                "session-child".to_string(),
                vec!["/tmp/other".to_string()],
                vec!["read".to_string()],
                now_ms() + 1_000_000,
            )
            .is_err()
    );
    // Child with longer expiry → refused.
    assert!(
        kernel
            .issue_child_lease(
                root,
                "session-child".to_string(),
                vec!["/tmp/lumen-leased/sub".to_string()],
                vec!["read".to_string()],
                now_ms() + 3_600_000 + 1,
            )
            .is_err()
    );
    // Chain leaf→root evaluates within the child scope.
    let envelope = test_envelope(
        "session-child",
        "/tmp/lumen-leased/sub/f.txt",
        vec![child, root],
    );
    let decision = kernel.evaluate(&envelope).expect("evaluate");
    assert!(decision.is_allow());
    // ...but not outside the child scope, even though the root allows it.
    let envelope2 = test_envelope(
        "session-child",
        "/tmp/lumen-leased/other.txt",
        vec![child, root],
    );
    let decision2 = kernel.evaluate(&envelope2).expect("evaluate");
    assert!(!decision2.is_allow());
}

#[test]
fn truncated_lease_chain_is_rejected() {
    let (mut kernel, root) = test_kernel();
    let child = kernel
        .issue_child_lease(
            root,
            "session-child".to_string(),
            vec!["/tmp/lumen-leased/sub".to_string()],
            vec!["read".to_string()],
            now_ms() + 1_000_000,
        )
        .expect("issue child");
    // The child is still valid, but the submitted chain does not
    // terminate at a root lease: accepting it would bypass ancestor
    // revocation, expiry, and narrowing.
    let envelope = test_envelope("session-child", "/tmp/lumen-leased/sub/f.txt", vec![child]);
    let decision = kernel.evaluate(&envelope).expect("evaluate");
    assert!(
        !decision.is_allow(),
        "truncated lease chain must not produce an allow"
    );
}

#[test]
fn in_process_transport_rejects_bad_credential() {
    let (kernel, lease) = test_kernel();
    let mut transport = InProcessKernel::new(kernel);
    let envelope = test_envelope("session-test", "/tmp/lumen-leased/a.txt", vec![lease]);
    let err = transport
        .round_trip("wrong-nonce", "right-nonce", &envelope)
        .expect_err("bad credential must fail");
    assert_eq!(err.code, "authentication_failed");
    let ok = transport
        .round_trip("right-nonce", "right-nonce", &envelope)
        .expect("good credential");
    assert!(ok.decision.expect("decision").is_allow());
}

#[test]
fn path_prefix_cover_rules() {
    assert!(path_prefix_covers("/", "/anything/at/all"));
    assert!(path_prefix_covers("/a/b", "/a/b"));
    assert!(path_prefix_covers("/a/b", "/a/b/c"));
    assert!(!path_prefix_covers("/a/b", "/a/bc"));
    assert!(!path_prefix_covers("/a/b", "/a"));
}

#[test]
fn canonical_path_normalizes_lexically() {
    assert_eq!(canonical_path("/a/b/../c").unwrap(), "/a/c");
    assert_eq!(canonical_path("/a/./b").unwrap(), "/a/b");
    assert_eq!(canonical_path("/").unwrap(), "/");
    assert!(canonical_path("relative").is_err());
}

#[test]
fn wire_requests_are_answered_in_order_of_their_faults() {
    let (mut kernel, lease) = test_kernel();
    let mut request = KernelWireRequest {
        protocol: "other/1".to_string(),
        credential: "wrong".to_string(),
        envelope: test_envelope("session-test", "/tmp/lumen-leased/a.txt", vec![lease]),
    };
    let r = answer(&mut kernel, &request, "right");
    assert_eq!(r.error.unwrap().code, "protocol_mismatch");
    assert_eq!(kernel.audit_log().len(), 0);
    request.protocol = KERNEL_WIRE_PROTOCOL.to_string();
    let r = answer(&mut kernel, &request, "right");
    assert_eq!(r.error.unwrap().code, "authentication_failed");
    let event = kernel.audit_log().get(0).unwrap();
    assert!(matches!(event.kind, AuditEventKind::TransportRejected));
    assert_eq!(event.session_id, "session-test");
    assert_eq!(event.detail, "bad kernel credential");
    // The nonce was not used up.
    request.credential = "right".to_string();
    let r = answer(&mut kernel, &request, "right");
    assert!(r.decision.unwrap().is_allow());
    assert_eq!(r.audit_sequence, Some(2));
    assert_eq!(
        r.action_digest.unwrap(),
        request.envelope.digest().unwrap()
    );
    assert_eq!(
        refuse_malformed("eof".to_string()).error.unwrap().detail,
        "eof"
    );
    let r = refuse_long_line(&mut kernel);
    assert_eq!(r.error.unwrap().code, "record_too_large");
    reject_peer(&mut kernel);
    assert_eq!(kernel.audit_log().len(), 5);
    kernel.audit_log().verify().expect("audit chain verifies");
}

#[test]
fn peers_are_admitted_by_user_and_process() {
    let anyone = PeerPolicy { uid: 7, pid: None };
    let one = PeerPolicy {
        uid: 7,
        pid: Some(42),
    };
    assert!(anyone.admits(7, None));
    assert!(!anyone.admits(8, None));
    assert!(one.admits(7, Some(42)));
    assert!(!one.admits(7, Some(43)));
    assert!(!one.admits(7, None));
}

#[test]
fn empty_segments_are_refused() {
    for bad in ["/a//b", "//a", "/a/", "//"] {
        let e = canonical_path(bad).unwrap_err();
        assert!(e.message().contains("empty segment"), "{bad}: {}", e.message());
    }
    assert_eq!(canonical_path("/a/..").unwrap(), "/");
}

#[test]
fn every_field_of_an_envelope_is_digested() {
    let base = test_envelope("session-test", "/tmp/a", vec![]);
    let digest = base.digest().unwrap();
    let mut other = base.clone();
    other.session_id.push('x');
    assert_ne!(other.digest().unwrap(), digest);
    let mut other = base.clone();
    other.tool.version.push('0');
    assert_ne!(other.digest().unwrap(), digest);
    let mut other = base.clone();
    other.expected_effects.process_spawn = !base.expected_effects.process_spawn;
    assert_ne!(other.digest().unwrap(), digest);
    let mut other = base.clone();
    other.expires_at_ms += 1;
    assert_ne!(other.digest().unwrap(), digest);
    let mut other = base.clone();
    other.action_id ^= 1;
    assert_ne!(other.digest().unwrap(), digest);
    assert_eq!(base.clone().digest().unwrap(), digest);
}

#[test]
fn the_log_verifies_whatever_a_kernel_does() {
    let (mut kernel, lease) = test_kernel();
    kernel.audit_log().verify().unwrap();
    reject_peer(&mut kernel);
    kernel.audit_log().verify().unwrap();
    let _ = refuse_long_line(&mut kernel);
    kernel.audit_log().verify().unwrap();
    let mut request = KernelWireRequest {
        protocol: KERNEL_WIRE_PROTOCOL.to_string(),
        credential: "wrong".to_string(),
        envelope: test_envelope("session-test", "/tmp/lumen-leased/a.txt", vec![lease]),
    };
    let _ = answer(&mut kernel, &request, "right");
    kernel.audit_log().verify().unwrap();
    request.credential = "right".to_string();
    let _ = answer(&mut kernel, &request, "right");
    kernel.audit_log().verify().unwrap();
    kernel.revoke_lease(lease).unwrap();
    let _ = answer(&mut kernel, &request, "right");
    kernel.audit_log().verify().unwrap();
    assert_eq!(kernel.audit_log().len(), 7);
}
