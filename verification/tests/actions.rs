//! Capabilities, actions, policy decisions and approvals.

use lumen_core::action::{
    ActionEnvelope, ActionError, ActionId, ActionKind, CanonicalValue, RunId,
};
use lumen_core::approval::{
    authorize_dispatch, ApprovalError, ApprovalId, ApprovalRequest, ApprovalState,
    DispatchAuthorization, DispatchError, TimestampMillis,
};
use lumen_core::capability::{
    Capability, CapabilityName, CapabilitySet, EffectiveCapabilities, ResourceScope, ScopeError,
    WorkspacePath,
};
use lumen_core::digest::sha256_hex_str;
use lumen_core::identity::{ComponentId, IdentityError, PrincipalId, WorkspaceId};
use lumen_core::policy::{DenialReason, Policy, PolicyDecision, PolicyVersion};

const WORKSPACE: WorkspaceId = WorkspaceId { value: 7 };

fn path(value: &str) -> WorkspacePath {
    WorkspacePath::parse(value.to_string()).unwrap()
}

fn capability(name: CapabilityName, at: &str) -> Capability {
    Capability::new(name, ResourceScope::path(WORKSPACE, path(at)))
}

fn actor() -> PrincipalId {
    PrincipalId::new("local".to_string(), "operator".to_string()).unwrap()
}

fn action(required: Vec<Capability>) -> ActionEnvelope {
    ActionEnvelope::new(
        ActionId::from_uuid(1),
        RunId::from_uuid(2),
        WORKSPACE,
        actor(),
        ComponentId::new("agent".to_string()).unwrap(),
        ActionKind::new("fs.write".to_string()).unwrap(),
        CanonicalValue::object(vec![
            ("path".to_string(), CanonicalValue::text("src/main.rs")),
            ("count".to_string(), CanonicalValue::from(3i64)),
        ]),
        required,
    )
}

fn layers(grants: Vec<Vec<Capability>>) -> EffectiveCapabilities {
    EffectiveCapabilities::new(grants.into_iter().map(CapabilitySet::new).collect())
}

#[test]
fn workspace_paths_are_plain_and_relative() {
    assert_eq!(path("src/main.rs").as_str(), "src/main.rs");
    for bad in ["", "/src", "src/../etc", "src//x", "./src", "src/"] {
        assert!(
            matches!(
                WorkspacePath::parse(bad.to_string()),
                Err(ScopeError::InvalidWorkspacePath(_))
            ),
            "{bad}"
        );
    }
    assert!(path("src").contains(&path("src/main.rs")));
    assert!(path("src").contains(&path("src")));
    assert!(!path("src").contains(&path("srcs")));
    assert!(!path("src/a").contains(&path("src")));
}

#[test]
fn scopes_cover_what_lies_within() {
    let all = ResourceScope::workspace(WORKSPACE);
    let src = ResourceScope::path(WORKSPACE, path("src"));
    let elsewhere = ResourceScope::path(WorkspaceId::from_uuid(8), path("src"));
    assert!(all.contains(&src));
    assert!(!src.contains(&all));
    assert!(!all.contains(&elsewhere));
    let token = ResourceScope::exact("secret".to_string(), "token".to_string()).unwrap();
    assert!(token.contains(&token));
    assert!(!all.contains(&token));
    assert!(matches!(
        ResourceScope::exact("".to_string(), "x".to_string()),
        Err(ScopeError::InvalidExactScope)
    ));
}

#[test]
fn every_layer_must_allow() {
    let wide = vec![Capability::new(
        CapabilityName::FsWrite,
        ResourceScope::workspace(WORKSPACE),
    )];
    let narrow = vec![capability(CapabilityName::FsWrite, "src")];
    let asked = capability(CapabilityName::FsWrite, "docs");
    assert!(layers(vec![wide.clone()]).allows(&asked));
    assert!(!layers(vec![wide.clone(), narrow]).allows(&asked));
    assert!(!layers(vec![]).allows(&asked));
    assert!(!layers(vec![wide]).allows(&capability(CapabilityName::FsDelete, "docs")));
}

#[test]
fn fingerprints_ignore_the_order_of_capabilities() {
    let read = capability(CapabilityName::FsRead, "src");
    let write = capability(CapabilityName::FsWrite, "src");
    let a = action(vec![read.clone(), write.clone()]).fingerprint();
    let b = action(vec![write, read.clone(), read.clone()]).fingerprint();
    assert!(a.same(&b));
    assert_eq!(a.as_str().len(), 64);
    assert!(!a.same(&action(vec![read]).fingerprint()));
}

#[test]
fn canonical_values_have_one_text() {
    let v = CanonicalValue::object(vec![
        ("z".to_string(), CanonicalValue::from(true)),
        ("a".to_string(), CanonicalValue::text("q\"uote\n")),
        ("a".to_string(), CanonicalValue::Null),
    ]);
    assert_eq!(v.to_json().to_text(), r#"{"a":null,"z":true}"#);
    assert_eq!(
        CanonicalValue::text("q\"uote\n\u{1}").to_json().to_text(),
        "\"q\\\"uote\\n\\u0001\""
    );
    assert!(matches!(
        ActionKind::new("".to_string()),
        Err(ActionError::InvalidKind)
    ));
}

#[test]
fn digests_are_known() {
    assert_eq!(
        sha256_hex_str("abc"),
        "ba7816bf8f01cfea414140de5dae2223b00361a396177a9cb410ff61f20015ad"
    );
}

#[test]
fn policy_denies_first_and_asks_for_approval() {
    let policy = Policy::default();
    let read = capability(CapabilityName::FsRead, "src");
    let write = capability(CapabilityName::FsWrite, "src");
    let both = layers(vec![vec![read.clone(), write.clone()]]);
    assert_eq!(
        policy.evaluate(&action(vec![]), &both),
        PolicyDecision::Deny(DenialReason::NoCapabilitiesDeclared)
    );
    assert_eq!(
        policy.evaluate(&action(vec![read.clone()]), &both),
        PolicyDecision::Allow
    );
    assert_eq!(
        policy.evaluate(&action(vec![write.clone()]), &both),
        PolicyDecision::RequireApproval
    );
    assert_eq!(
        policy.evaluate(&action(vec![write.clone()]), &layers(vec![vec![read]])),
        PolicyDecision::Deny(DenialReason::MissingCapability(write))
    );
}

fn request(a: &ActionEnvelope) -> ApprovalRequest {
    ApprovalRequest::new(
        ApprovalId::from_uuid(5),
        a.fingerprint(),
        PolicyVersion::new("v1".to_string()),
        TimestampMillis::new(10),
        TimestampMillis::new(20),
    )
    .unwrap()
}

#[test]
fn approvals_are_granted_once_and_used_once() {
    let a = action(vec![capability(CapabilityName::FsWrite, "src")]);
    let v = PolicyVersion::new("v1".to_string());
    let at = TimestampMillis::new;
    let mut r = request(&a);
    assert_eq!(
        authorize_dispatch(&PolicyDecision::RequireApproval, &a, &v, None, at(11)),
        Err(DispatchError::MissingApproval)
    );
    assert_eq!(
        authorize_dispatch(
            &PolicyDecision::RequireApproval,
            &a,
            &v,
            Some(&mut r),
            at(11)
        ),
        Err(DispatchError::Approval(ApprovalError::NotGranted))
    );
    r.grant(actor(), at(12)).unwrap();
    assert_eq!(r.state(), ApprovalState::Granted);
    assert_eq!(
        r.grant(actor(), at(13)),
        Err(ApprovalError::AlreadyGranted)
    );
    assert_eq!(
        authorize_dispatch(
            &PolicyDecision::RequireApproval,
            &a,
            &v,
            Some(&mut r),
            at(14)
        ),
        Ok(DispatchAuthorization::Approved {
            approval_id: ApprovalId::from_uuid(5)
        })
    );
    assert_eq!(r.state(), ApprovalState::Consumed);
    assert_eq!(r.consumed_at(), Some(at(14)));
    assert_eq!(
        authorize_dispatch(
            &PolicyDecision::RequireApproval,
            &a,
            &v,
            Some(&mut r),
            at(15)
        ),
        Err(DispatchError::Approval(ApprovalError::AlreadyConsumed))
    );
}

#[test]
fn approvals_bind_action_and_policy() {
    let a = action(vec![capability(CapabilityName::FsWrite, "src")]);
    let other = action(vec![capability(CapabilityName::FsWrite, "docs")]);
    let at = TimestampMillis::new;
    let v = PolicyVersion::new("v1".to_string());
    let mut r = request(&a);
    r.grant(actor(), at(12)).unwrap();
    assert_eq!(
        authorize_dispatch(
            &PolicyDecision::RequireApproval,
            &other,
            &v,
            Some(&mut r),
            at(14)
        ),
        Err(DispatchError::Approval(
            ApprovalError::ActionFingerprintMismatch
        ))
    );
    assert_eq!(r.state(), ApprovalState::Invalidated);
    let mut r = request(&a);
    r.grant(actor(), at(12)).unwrap();
    assert_eq!(
        authorize_dispatch(
            &PolicyDecision::RequireApproval,
            &a,
            &PolicyVersion::new("v2".to_string()),
            Some(&mut r),
            at(14)
        ),
        Err(DispatchError::Approval(ApprovalError::PolicyVersionMismatch))
    );
}

#[test]
fn approvals_end() {
    let a = action(vec![capability(CapabilityName::FsWrite, "src")]);
    let at = TimestampMillis::new;
    let mut r = request(&a);
    assert_eq!(r.grant(actor(), at(20)), Err(ApprovalError::Expired));
    assert_eq!(r.state(), ApprovalState::Expired);
    let mut r = request(&a);
    r.reject(actor(), at(12)).unwrap();
    assert_eq!(r.grant(actor(), at(13)), Err(ApprovalError::Rejected));
    assert!(matches!(
        ApprovalRequest::new(
            ApprovalId::from_uuid(5),
            a.fingerprint(),
            PolicyVersion::new("v1".to_string()),
            at(20),
            at(20)
        ),
        Err(ApprovalError::InvalidTimeRange)
    ));
    assert_eq!(
        authorize_dispatch(
            &PolicyDecision::Deny(DenialReason::NoCapabilitiesDeclared),
            &a,
            &PolicyVersion::new("v1".to_string()),
            None,
            at(1)
        ),
        Err(DispatchError::PolicyDenied(
            DenialReason::NoCapabilitiesDeclared
        ))
    );
    assert_eq!(
        authorize_dispatch(
            &PolicyDecision::Allow,
            &a,
            &PolicyVersion::new("v1".to_string()),
            None,
            at(1)
        ),
        Ok(DispatchAuthorization::PolicyAllowed)
    );
}

#[test]
fn principals_have_two_parts() {
    assert!(matches!(
        PrincipalId::new("".to_string(), "x".to_string()),
        Err(IdentityError::InvalidPart { .. })
    ));
    assert!(actor().same(&actor()));
    assert_eq!(
        WorkspaceId::from_uuid(0x550e8400_e29b_41d4_a716_446655440000).to_text(),
        "550e8400-e29b-41d4-a716-446655440000"
    );
}

#[test]
fn dispatch_errors_have_messages() {
    assert_eq!(
        DispatchError::MissingApproval.message(),
        "current policy requires an approval"
    );
    assert_eq!(
        DispatchError::Approval(ApprovalError::Expired).message(),
        "approval expired"
    );
    assert_eq!(
        DispatchError::PolicyDenied(DenialReason::NoCapabilitiesDeclared).message(),
        "current policy denied dispatch: NoCapabilitiesDeclared"
    );
    assert_eq!(
        DispatchError::PolicyDenied(DenialReason::MissingCapability(capability(
            CapabilityName::FsWrite,
            "src/a"
        )))
        .message(),
        "current policy denied dispatch: MissingCapability(Capability { name: FsWrite, scope: \
         Path { workspace_id: WorkspaceId(00000000-0000-0000-0000-000000000007), path: \
         WorkspacePath(\"src/a\") } })"
    );
}

#[test]
fn nothing_is_allowed_by_default() {
    let wanted = capability(CapabilityName::FsRead, "src");
    assert!(!CapabilitySet::default().allows(&wanted));
    assert_eq!(CapabilitySet::default(), CapabilitySet::new(vec![]));
    assert!(!EffectiveCapabilities::default().allows(&wanted));
    assert_eq!(EffectiveCapabilities::default(), layers(vec![]));
}
