//! Leases: minting, delegation, chains, one-shot grants and authorization.

use lumen_core::budget::{Budget, BudgetDimension, BudgetLedger};
use lumen_core::canonical::path::{CanonicalPath, PathGrant, PathResolver, PathRights};
use lumen_core::canonical::ports::PortSet;
use lumen_core::canonical::resource::EffectClass;
use lumen_core::canonical::scope::ResourceScope;
use lumen_core::json::Json;
use lumen_core::kernel_audit::chain::{AuditStore, KernelAuditLog, MemoryAuditStore};
use lumen_core::kernel_audit::queries::AuditQueries;
use lumen_core::keys::{SigningKey, VerifyingKey};
use lumen_core::lease::action::{mint_one_shot_lease, CanonicalAction, OneShotGrant};
use lumen_core::lease::authorize::{
    authorize_envelope, conclude, execution_reservation_id, AuthorizeParams, Outbox,
};
use lumen_core::lease::chain::validate_chain;
use lumen_core::lease::mint::{
    mint_child_lease, mint_root_lease, ChildLeaseParams, RootLeaseParams,
};
use lumen_core::lease::session::{
    IssuerKeys, KernelKeys, LeaseResolver, LeaseTable, OneShotTracker, OneShotUses,
    RevocationIndex, SessionRegistry,
};
use lumen_core::lease::{
    LeaseError, LeaseLimits, DEFAULT_SESSION_MAX_LIFETIME_MS, MAX_ROOT_LEASE_LIFETIME_MS,
};
use lumen_core::nonce::NonceStore;
use lumen_core::ordered::OrderedTable;
use lumen_core::pi_boundary::{
    ActionEnvelope, DecisionOutcome, EffectClasses, KernelWireResponse, LeaseId, NetworkResource,
    PathResource, PathRights as Rights, PolicyDecision, ResourceSet, ToolRef,
    ACTION_ENVELOPE_VERSION, KERNEL_WIRE_PROTOCOL,
};
use lumen_core::version::VersionReq;
use std::collections::HashMap;
use uuid::Uuid;

fn arguments(n: i64) -> OrderedTable<Json> {
    let mut arguments = OrderedTable::new();
    arguments.insert("n".to_string(), Json::Int(n));
    arguments
}

#[test]
fn kernel_keys_zeroize_on_drop() {
    fn requires_zeroize_on_drop<T: zeroize::ZeroizeOnDrop>() {}
    requires_zeroize_on_drop::<ed25519_dalek::SigningKey>();
    // Dropping a key, and so dropping the keys of a kernel, runs code of its
    // own: the erasure that is called by hand below.
    assert!(std::mem::needs_drop::<SigningKey>());
    assert!(std::mem::needs_drop::<KernelKeys>());
    let mut key = SigningKey::from_bytes([7; 32]);
    key.erase();
    assert_eq!(
        key.verifying_key(),
        SigningKey::from_bytes([0; 32]).verifying_key()
    );
    // The keys must still sign right up until they are dropped.
    let keys = KernelKeys::generate();
    let sig = keys.issuer_sign(b"custody-check");
    assert!(keys.issuer_verifying().verify(b"custody-check", &sig));
    assert!(!keys.issuer_verifying().verify(b"another message", &sig));
}

/// Maps inputs to outputs lexically.
#[derive(Default)]
struct FakeResolver {
    map: HashMap<String, String>,
}

impl FakeResolver {
    fn link(mut self, from: &str, to: &str) -> Self {
        self.map.insert(from.to_string(), to.to_string());
        self
    }
}

impl PathResolver for FakeResolver {
    fn resolve(&self, path: &str) -> Result<String, String> {
        // Longest-prefix link matching on component boundaries, then `..`
        // folding against the resolved path.
        let mut cur = path.to_string();
        for _ in 0..16 {
            let mut hit: Option<(&str, &str)> = None;
            for (from, to) in &self.map {
                let matches = cur == *from
                    || cur
                        .strip_prefix(from.as_str())
                        .is_some_and(|rest| rest.starts_with('/'));
                if matches && hit.map_or(true, |(f, _)| from.len() > f.len()) {
                    hit = Some((from, to));
                }
            }
            match hit {
                Some((from, to)) => {
                    let rest = cur.strip_prefix(from).unwrap_or("").to_string();
                    cur = format!("{to}{rest}");
                }
                None => break,
            }
        }
        let mut out: Vec<&str> = Vec::new();
        for comp in cur.split('/') {
            match comp {
                "" | "." => {}
                ".." => {
                    out.pop();
                }
                c => out.push(c),
            }
        }
        Ok(format!("/{}", out.join("/")))
    }
}

fn test_keys() -> (KernelKeys, SigningKey, VerifyingKey) {
    let keys = KernelKeys::generate();
    let session_key = SigningKey::generate();
    let session_vk = session_key.verifying_key();
    (keys, session_key, session_vk)
}

fn test_sessions(session_vk: VerifyingKey, child_vk: VerifyingKey) -> SessionRegistry {
    let mut s = SessionRegistry::new();
    s.register("ed25519:parent-session".to_string(), None, session_vk, 0);
    s.register(
        "ed25519:child-session".to_string(),
        Some("ed25519:parent-session".to_string()),
        child_vk,
        0,
    );
    s
}

fn issuer_resolver(keys: &KernelKeys) -> IssuerKeys {
    IssuerKeys::new().record(&keys.issuer_key_id, keys.issuer_verifying())
}

fn parent_scope() -> ResourceScope {
    let r = FakeResolver::default();
    let mut scope = ResourceScope::empty();
    scope.tools.insert(
        "fs.read".to_string(),
        VersionReq::parse("^1.0").unwrap(),
    );
    scope.paths.push(PathGrant {
        root: CanonicalPath::parse("/workspace", &r, false).unwrap(),
        rights: PathRights::read_only(),
    });
    scope.effects.push(EffectClass::Read);
    scope
}

fn root_params(scope: ResourceScope) -> RootLeaseParams {
    RootLeaseParams {
        lease_id: "lease-root-1".to_string(),
        subject: "ed25519:parent-session".to_string(),
        scope,
        limits: LeaseLimits {
            not_before_ms: 0,
            expires_at_ms: 1_000_000,
            budget: Budget::new()
                .set(BudgetDimension::Executions, 100)
                .set(BudgetDimension::SpendMicros, 10_000),
            max_executions: None,
            single_use: false,
        },
        depth_limit: 4,
        lease_nonce: "root-nonce-1".to_string(),
        issued_at_ms: 100,
    }
}

#[test]
fn root_mint_sign_verify() {
    let (keys, _, session_vk) = test_keys();
    let mut sessions = SessionRegistry::new();
    sessions.register("ed25519:parent-session".to_string(), None, session_vk, 0);
    let mut ledger = BudgetLedger::new();
    let mut nonces = NonceStore::new();
    let doc = mint_root_lease(
        root_params(parent_scope()),
        &keys,
        &sessions,
        &mut ledger,
        &mut nonces,
        100,
    )
    .unwrap();
    assert!(doc.is_root());
    doc.verify_signature(&keys.issuer_verifying()).unwrap();
    // Tampering invalidates the signature.
    let mut evil = doc.clone();
    evil.depth_limit = 99;
    assert!(evil.verify_signature(&keys.issuer_verifying()).is_err());
}

#[test]
fn child_mint_narrowing() {
    let (keys, session_key, session_vk) = test_keys();
    let child_key = SigningKey::generate();
    let sessions = test_sessions(session_vk, child_key.verifying_key());
    let mut ledger = BudgetLedger::new();
    let mut nonces = NonceStore::new();
    let root = mint_root_lease(
        root_params(parent_scope()),
        &keys,
        &sessions,
        &mut ledger,
        &mut nonces,
        100,
    )
    .unwrap();

    // Narrower child: pinned version, sub-path, smaller budget.
    let r = FakeResolver::default();
    let mut scope = ResourceScope::empty();
    scope.tools.insert(
        "fs.read".to_string(),
        VersionReq::parse("=1.2.3").unwrap(),
    );
    scope.paths.push(PathGrant {
        root: CanonicalPath::parse("/workspace/src", &r, false).unwrap(),
        rights: PathRights::read_only(),
    });
    scope.effects.push(EffectClass::Read);
    let child = mint_child_lease(
        &root,
        ChildLeaseParams {
            lease_id: "lease-child-1".to_string(),
            subject: "ed25519:child-session".to_string(),
            scope,
            limits: LeaseLimits {
                not_before_ms: 0,
                expires_at_ms: 500_000,
                budget: Budget::new().set(BudgetDimension::Executions, 10),
                max_executions: None,
                single_use: false,
            },
            depth_limit: 4,
            lease_nonce: "child-nonce-1".to_string(),
            issued_at_ms: 200,
        },
        &session_key,
        &sessions,
        &RevocationIndex::new(),
        &mut ledger,
        &mut nonces,
        200,
    )
    .unwrap();
    assert_eq!(child.depth, 1);
    assert_eq!(child.parent_id.as_deref(), Some("lease-root-1"));
    child.verify_signature(&session_vk).unwrap();

    // Wider child is rejected.
    let mut wide = ResourceScope::empty();
    wide.tools.insert(
        "fs.read".to_string(),
        VersionReq::parse("=1.2.3").unwrap(),
    );
    wide.paths.push(PathGrant {
        root: CanonicalPath::parse("/other", &r, false).unwrap(),
        rights: PathRights::read_only(),
    });
    wide.effects.push(EffectClass::Read);
    let err = mint_child_lease(
        &root,
        ChildLeaseParams {
            lease_id: "lease-child-2".to_string(),
            subject: "ed25519:child-session".to_string(),
            scope: wide,
            limits: LeaseLimits {
                not_before_ms: 0,
                expires_at_ms: 500_000,
                budget: Budget::new(),
                max_executions: None,
                single_use: false,
            },
            depth_limit: 4,
            lease_nonce: "child-nonce-2".to_string(),
            issued_at_ms: 200,
        },
        &session_key,
        &sessions,
        &RevocationIndex::new(),
        &mut ledger,
        &mut nonces,
        200,
    );
    assert!(matches!(err, Err(LeaseError::Subset(_))));
}

#[test]
fn chain_validation_and_revocation() {
    let (keys, session_key, session_vk) = test_keys();
    let child_key = SigningKey::generate();
    let sessions = test_sessions(session_vk, child_key.verifying_key());
    let mut ledger = BudgetLedger::new();
    let mut nonces = NonceStore::new();
    let root = mint_root_lease(
        root_params(parent_scope()),
        &keys,
        &sessions,
        &mut ledger,
        &mut nonces,
        100,
    )
    .unwrap();
    let r = FakeResolver::default();
    let mut scope = ResourceScope::empty();
    scope.tools.insert(
        "fs.read".to_string(),
        VersionReq::parse("=1.2.3").unwrap(),
    );
    scope.paths.push(PathGrant {
        root: CanonicalPath::parse("/workspace/src", &r, false).unwrap(),
        rights: PathRights::read_only(),
    });
    scope.effects.push(EffectClass::Read);
    let child = mint_child_lease(
        &root,
        ChildLeaseParams {
            lease_id: "lease-child-1".to_string(),
            subject: "ed25519:child-session".to_string(),
            scope,
            limits: LeaseLimits {
                not_before_ms: 0,
                expires_at_ms: 500_000,
                budget: Budget::new().set(BudgetDimension::Executions, 10),
                max_executions: None,
                single_use: false,
            },
            depth_limit: 4,
            lease_nonce: "child-nonce-3".to_string(),
            issued_at_ms: 200,
        },
        &session_key,
        &sessions,
        &RevocationIndex::new(),
        &mut ledger,
        &mut nonces,
        200,
    )
    .unwrap();
    let map = LeaseTable::new();
    let map = map.with(root.clone()).with(child.clone());
    let revocations = RevocationIndex::new();
    let one_shot = OneShotUses::new();
    let chain_ids = vec![child.lease_id.clone(), root.lease_id.clone()];
    let validated = validate_chain(
        &map,
        &chain_ids,
        &revocations,
        &sessions,
        &issuer_resolver(&keys),
        &one_shot,
        300,
    )
    .unwrap();
    assert_eq!(validated.leaf.lease_id, "lease-child-1");

    // Revoking the root transitively invalidates the child.
    let mut revocations = RevocationIndex::new();
    revocations.revoke(&root.lease_id);
    let err = validate_chain(
        &map,
        &chain_ids,
        &revocations,
        &sessions,
        &issuer_resolver(&keys),
        &one_shot,
        300,
    );
    assert!(matches!(err, Err(LeaseError::Revoked(_))));

    // A destroyed issuing session fails closed even when the
    // revocation index was lost (crash between destroy and durable
    // revoke): validation checks active ancestry, not just the
    // revocation list.
    let (keys, session_key, session_vk) = test_keys();
    let child_key = SigningKey::generate();
    let mut sessions = test_sessions(session_vk, child_key.verifying_key());
    let mut ledger = BudgetLedger::new();
    let mut nonces = NonceStore::new();
    let root = mint_root_lease(
        root_params(parent_scope()),
        &keys,
        &sessions,
        &mut ledger,
        &mut nonces,
        100,
    )
    .unwrap();
    let r = FakeResolver::default();
    let mut child_scope = ResourceScope::empty();
    child_scope.tools.insert(
        "fs.read".to_string(),
        VersionReq::parse("=1.2.3").unwrap(),
    );
    child_scope.paths.push(PathGrant {
        root: CanonicalPath::parse("/workspace/src", &r, false).unwrap(),
        rights: PathRights::read_only(),
    });
    child_scope.effects.push(EffectClass::Read);
    let child = mint_child_lease(
        &root,
        ChildLeaseParams {
            lease_id: "lease-child-dead-parent".to_string(),
            subject: "ed25519:child-session".to_string(),
            scope: child_scope,
            limits: LeaseLimits {
                not_before_ms: 0,
                expires_at_ms: 500_000,
                budget: Budget::new().set(BudgetDimension::Executions, 10),
                max_executions: None,
                single_use: false,
            },
            depth_limit: 4,
            lease_nonce: "child-nonce-dead".to_string(),
            issued_at_ms: 200,
        },
        &session_key,
        &sessions,
        &RevocationIndex::new(),
        &mut ledger,
        &mut nonces,
        200,
    )
    .unwrap();
    let map = LeaseTable::new();
    let map = map.with(root.clone()).with(child.clone());
    let chain_ids = vec![child.lease_id.clone(), root.lease_id.clone()];
    // Sanity: the chain validates while the issuing session is live.
    validate_chain(
        &map,
        &chain_ids,
        &RevocationIndex::new(),
        &sessions,
        &issuer_resolver(&keys),
        &OneShotUses::new(),
        300,
    )
    .unwrap();
    // Destroy the issuing session without revoking: validation must
    // still fail closed on the dead ancestry.
    sessions.deactivate("ed25519:parent-session");
    let err = validate_chain(
        &map,
        &chain_ids,
        &RevocationIndex::new(),
        &sessions,
        &issuer_resolver(&keys),
        &OneShotUses::new(),
        300,
    );
    assert!(matches!(err, Err(LeaseError::SubjectInactive(_))));
}

#[test]
fn subject_liveness_walks_full_ancestry() {
    let gp_key = SigningKey::generate();
    let p_key = SigningKey::generate();
    let c_key = SigningKey::generate();
    let mut sessions = SessionRegistry::new();
    sessions.register(
        "ed25519:grandparent".to_string(),
        None,
        gp_key.verifying_key(),
        0,
    );
    sessions.register(
        "ed25519:parent".to_string(),
        Some("ed25519:grandparent".to_string()),
        p_key.verifying_key(),
        0,
    );
    sessions.register(
        "ed25519:child".to_string(),
        Some("ed25519:parent".to_string()),
        c_key.verifying_key(),
        0,
    );
    // All live: the whole ancestry holds.
    assert!(sessions.is_subject_live("ed25519:child", 300));
    // Deactivating the grandparent kills the child's ancestry even
    // though the child and parent records are still active — this is
    // the case `is_active_descendant(x, x, …)` misses, because it
    // returns after checking only the named record.
    sessions.deactivate("ed25519:grandparent");
    assert!(sessions.is_active_descendant("ed25519:child", "ed25519:child", 300));
    assert!(!sessions.is_subject_live("ed25519:child", 300));
    assert!(!sessions.is_subject_live("ed25519:parent", 300));
    assert!(!sessions.is_subject_live("ed25519:grandparent", 300));
    // Unknown subjects are not live.
    assert!(!sessions.is_subject_live("ed25519:nobody", 300));
}

#[test]
fn subject_liveness_enforces_session_ttl() {
    let key = SigningKey::generate();
    let mut sessions = SessionRegistry::new();
    sessions.set_max_lifetime(Some(1_000));
    sessions.register("ed25519:short".to_string(), None, key.verifying_key(), 0);
    assert!(sessions.is_subject_live("ed25519:short", 999));
    assert!(!sessions.is_subject_live("ed25519:short", 1_000));
    // Disabling the TTL restores liveness for the active record.
    sessions.set_max_lifetime(None);
    assert!(sessions.is_subject_live("ed25519:short", 1_000_000));
}

#[test]
fn one_shot_grant_flow() {
    let (keys, _, session_vk) = test_keys();
    let vhl_key = SigningKey::generate();
    let vhl_vk = vhl_key.verifying_key();
    let mut sessions = SessionRegistry::new();
    sessions.register("ed25519:parent-session".to_string(), None, session_vk, 0);
    let mut ledger = BudgetLedger::new();
    let mut nonces = NonceStore::new();
    let r = FakeResolver::default();

    // Build an action and its grant.
    let env = ActionEnvelope {
        version: ACTION_ENVELOPE_VERSION,
        action_id: Uuid::parse_str("550e8400-e29b-41d4-a716-446655440000").unwrap().as_u128(),
        session_id: "ed25519:parent-session".to_string(),
        tool: ToolRef {
            name: "fs.read".to_string(),
            version: "1.2.3".to_string(),
        },
        // The frozen contract requires integer-only arguments.
        arguments: arguments(1),
        inputs: vec![],
        resources: ResourceSet {
            paths: vec![PathResource {
                path: "/workspace/README.md".to_string(),
                rights: Rights::Read,
            }],
            network: vec![],
            secrets: vec![],
        },
        expected_effects: EffectClasses {
            file_read: true,
            file_write: false,
            network_egress: false,
            network_ingress: false,
            process_spawn: false,
        },
        lease_chain: vec![],
        nonce: "6ba7b810-9dad-11d1-80b4-00c04fd430c8".to_string(),
        expires_at_ms: 1_000_000,
    };
    let action = CanonicalAction::from_envelope(&env, &r, false).unwrap();
    let mut grant = OneShotGrant {
        approval_id: "appr-1".to_string(),
        action_digest: action.digest.clone(),
        session_subject: "ed25519:parent-session".to_string(),
        signer_key_id: "vhl-human-1".to_string(),
        nonce: "grant-nonce-1".to_string(),
        created_at_ms: 100,
        expires_at_ms: 10_000,
        signature: String::new(),
    };
    grant.sign(&vhl_key);
    let one_shot = mint_one_shot_lease(
        &grant, &vhl_vk, &action, &keys, &sessions, &mut ledger, &mut nonces, 200,
    )
    .unwrap();
    assert!(one_shot.limits.single_use);
    one_shot.verify_signature(&keys.issuer_verifying()).unwrap();

    // Authorize the exact action with the one-shot lease: allowed once.
    let map = LeaseTable::new();
    let map = map.with(one_shot.clone());
    let mut env2 = env.clone();
    env2.lease_chain = vec![LeaseId::from_uuid(
        Uuid::parse_str(&one_shot.lease_id).expect("one-shot id is a UUID").as_u128(),
    )];
    let mut tracker: OneShotUses = OneShotUses::new();
    let outbox = &mut Outbox::new();
    let params = AuthorizeParams {
        now_ms: 300,
        case_insensitive_fs: false,
        allow_approval_fallback: false,
        approval_ttl_ms: 60_000,
    };
    let d1 = authorize_envelope(
        &env2,
        &r,
        &map,
        &RevocationIndex::new(),
        &sessions,
        &issuer_resolver(&keys),
        &mut tracker,
        &mut nonces,
        &mut ledger,
        outbox,
        &params,
    );
    assert!(d1.is_allow());
    // The frozen decision carries no digest; binding to the envelope
    // happens at the wire layer.
    let digest = env2.digest().unwrap();
    let wire = KernelWireResponse {
        protocol: KERNEL_WIRE_PROTOCOL.to_string(),
        decision: Some(d1),
        audit_sequence: Some(0),
        action_digest: Some(digest.clone()),
        error: None,
    };
    assert_eq!(wire.action_digest.as_deref(), Some(digest.as_str()));
    assert!(wire.decision.expect("decision").is_allow());
    // The one-shot is consumed exactly once, at authorization time.
    assert!(tracker.is_consumed(&one_shot.lease_id));
    // Second authorization with the same envelope is rejected.
    let d2 = authorize_envelope(
        &env2,
        &r,
        &map,
        &RevocationIndex::new(),
        &sessions,
        &issuer_resolver(&keys),
        &mut tracker,
        &mut nonces,
        &mut ledger,
        outbox,
        &params,
    );
    assert!(!d2.is_allow());
}

#[test]
fn finite_execution_budget_depletes() {
    let (keys, _, session_vk) = test_keys();
    let mut sessions = SessionRegistry::new();
    sessions.register("ed25519:parent-session".to_string(), None, session_vk, 0);
    let mut ledger = BudgetLedger::new();
    let mut nonces = NonceStore::new();
    let r = FakeResolver::default();

    // Standing lease with exactly one execution.
    let mut lp = root_params(parent_scope());
    lp.limits.budget = Budget::new().set(BudgetDimension::Executions, 1);
    // The frozen envelope carries lease ids as UUIDs.
    lp.lease_id = Uuid::new_v4().to_string();
    let root = mint_root_lease(lp, &keys, &sessions, &mut ledger, &mut nonces, 100).unwrap();

    let map = LeaseTable::new();
    let map = map.with(root.clone());
    let params = AuthorizeParams {
        now_ms: 200,
        case_insensitive_fs: false,
        allow_approval_fallback: false,
        approval_ttl_ms: 60_000,
    };
    let mut env = ActionEnvelope {
        version: ACTION_ENVELOPE_VERSION,
        action_id: Uuid::parse_str("550e8400-e29b-41d4-a716-446655440001").unwrap().as_u128(),
        session_id: "ed25519:parent-session".to_string(),
        tool: ToolRef {
            name: "fs.read".to_string(),
            version: "1.2.3".to_string(),
        },
        // The frozen contract requires integer-only arguments.
        arguments: arguments(1),
        inputs: vec![],
        resources: ResourceSet {
            paths: vec![PathResource {
                path: "/workspace/README.md".to_string(),
                rights: Rights::Read,
            }],
            network: vec![],
            secrets: vec![],
        },
        expected_effects: EffectClasses {
            file_read: true,
            file_write: false,
            network_egress: false,
            network_ingress: false,
            process_spawn: false,
        },
        lease_chain: vec![LeaseId::from_uuid(
        Uuid::parse_str(&root.lease_id).expect("root id is a UUID").as_u128(),
    )],
        nonce: "env-nonce-a".to_string(),
        expires_at_ms: 1_000_000,
    };

    // First authorization: allowed, and the Allow carries the execution
    // reservation the dispatcher must settle or release.
    let mut tracker = OneShotUses::new();
    let outbox = &mut Outbox::new();
    let d1 = authorize_envelope(
        &env,
        &r,
        &map,
        &RevocationIndex::new(),
        &sessions,
        &issuer_resolver(&keys),
        &mut tracker,
        &mut nonces,
        &mut ledger,
        outbox,
        &params,
    );
    assert!(d1.is_allow());
    let res_id = execution_reservation_id(&d1)
        .expect("allow carries the settle_budget obligation")
        .to_string();
    assert!(res_id.starts_with("exec_"));
    assert_eq!(
        ledger
            .remaining(&root.lease_id)
            .unwrap()
            .get(BudgetDimension::Executions),
        0,
        "the hold is visible the moment the action is authorized"
    );

    // Second action: the finite budget is exhausted, denied.
    env.action_id = Uuid::parse_str("550e8400-e29b-41d4-a716-446655440002").unwrap().as_u128();
    env.nonce = "env-nonce-b".to_string();
    let d2 = authorize_envelope(
        &env,
        &r,
        &map,
        &RevocationIndex::new(),
        &sessions,
        &issuer_resolver(&keys),
        &mut tracker,
        &mut nonces,
        &mut ledger,
        outbox,
        &params,
    );
    assert!(!d2.is_allow());
    match &d2.outcome {
        DecisionOutcome::Deny { reason } => {
            assert!(
                reason.detail.contains("budget"),
                "unexpected reason: {reason:?}"
            )
        }
        other => panic!("expected deny, got {other:?}"),
    }

    // Settling the first reservation converts the hold to consumption;
    // the budget stays spent, never leaks back.
    ledger
        .settle_execution(
            &res_id,
            &Budget::new().set(BudgetDimension::Executions, 1),
            "settle-a",
            300,
        )
        .unwrap();
    env.action_id = Uuid::parse_str("550e8400-e29b-41d4-a716-446655440003").unwrap().as_u128();
    env.nonce = "env-nonce-c".to_string();
    let d3 = authorize_envelope(
        &env,
        &r,
        &map,
        &RevocationIndex::new(),
        &sessions,
        &issuer_resolver(&keys),
        &mut tracker,
        &mut nonces,
        &mut ledger,
        outbox,
        &params,
    );
    assert!(!d3.is_allow());
    ledger.check_invariants().unwrap();
}

/// Build an envelope declaring a single network resource for `host`.
fn envelope_with_network_host(host: &str) -> ActionEnvelope {
    ActionEnvelope {
        version: ACTION_ENVELOPE_VERSION,
        action_id: Uuid::new_v4().as_u128(),
        session_id: "ed25519:parent-session".to_string(),
        tool: ToolRef {
            name: "net.fetch".to_string(),
            version: "1.2.3".to_string(),
        },
        arguments: arguments(1),
        inputs: vec![],
        resources: ResourceSet {
            paths: vec![],
            network: vec![NetworkResource {
                scheme: "https".to_string(),
                host: host.to_string(),
                port: 443,
            }],
            secrets: vec![],
        },
        expected_effects: EffectClasses {
            file_read: false,
            file_write: false,
            network_egress: true,
            network_ingress: false,
            process_spawn: false,
        },
        lease_chain: vec![],
        nonce: "net-nonce".to_string(),
        expires_at_ms: 500_000,
    }
}

#[test]
fn network_resource_rejects_authority_smuggling() {
    let r = FakeResolver::default();
    // Benign declarations round-trip to exactly the declared host/port.
    for host in [
        "example.com",
        "93.184.216.34",
        "2001:db8::1",
        "[2001:db8::1]",
        "EXAMPLE.com",
    ] {
        let env = envelope_with_network_host(host);
        let action = CanonicalAction::from_envelope(&env, &r, false)
            .unwrap_or_else(|e| panic!("host {host:?} should parse: {e:?}"));
        assert_eq!(action.destinations.len(), 1);
        assert_eq!(action.destinations[0].ports, PortSet::single(443));
    }
    // Authority smuggling is rejected at the boundary, never normalized.
    for host in [
        "x@b.com",
        "b.com#",
        "b.com?x=1",
        "b.com/",
        "a.com:8443",
        "[::1",
        "[1.2.3.4]",
        "2001:db8::1]:443",
        "",
    ] {
        let env = envelope_with_network_host(host);
        assert!(
            CanonicalAction::from_envelope(&env, &r, false).is_err(),
            "host {host:?} must be rejected"
        );
    }
}

/// Mint a one-shot lease for one exact fs.read action, as in
/// `one_shot_grant_flow`. Returns the envelope (verbatim, as the
/// dispatcher would present it), the lease map, the one-shot lease id,
/// and the authorizer inputs.
fn one_shot_fixture() -> (
    ActionEnvelope,
    LeaseTable,
    String,
    KernelKeys,
    SessionRegistry,
    BudgetLedger,
) {
    let (keys, _, session_vk) = test_keys();
    let vhl_key = SigningKey::generate();
    let mut sessions = SessionRegistry::new();
    sessions.register("ed25519:parent-session".to_string(), None, session_vk, 0);
    let mut ledger = BudgetLedger::new();
    let mut nonces = NonceStore::new();
    let r = FakeResolver::default();
    let mut env = ActionEnvelope {
        version: ACTION_ENVELOPE_VERSION,
        action_id: Uuid::parse_str("550e8400-e29b-41d4-a716-446655440099").unwrap().as_u128(),
        session_id: "ed25519:parent-session".to_string(),
        tool: ToolRef {
            name: "fs.read".to_string(),
            version: "1.2.3".to_string(),
        },
        // The frozen contract requires integer-only arguments.
        arguments: arguments(1),
        inputs: vec![],
        resources: ResourceSet {
            paths: vec![PathResource {
                path: "/workspace/README.md".to_string(),
                rights: Rights::Read,
            }],
            network: vec![],
            secrets: vec![],
        },
        expected_effects: EffectClasses {
            file_read: true,
            file_write: false,
            network_egress: false,
            network_ingress: false,
            process_spawn: false,
        },
        lease_chain: vec![],
        nonce: "fixture-nonce-a".to_string(),
        expires_at_ms: 500_000,
    };
    let action = CanonicalAction::from_envelope(&env, &r, false).unwrap();
    let mut grant = OneShotGrant {
        approval_id: "appr-fixture".to_string(),
        action_digest: action.digest.clone(),
        session_subject: "ed25519:parent-session".to_string(),
        signer_key_id: "vhl-human-1".to_string(),
        nonce: "grant-nonce-fixture".to_string(),
        created_at_ms: 100,
        expires_at_ms: 10_000,
        signature: String::new(),
    };
    grant.sign(&vhl_key);
    let one_shot = mint_one_shot_lease(
        &grant,
        &vhl_key.verifying_key(),
        &action,
        &keys,
        &sessions,
        &mut ledger,
        &mut nonces,
        200,
    )
    .unwrap();
    // The lease carries the approved digest, covered by the issuer
    // signature.
    assert_eq!(
        one_shot.approved_action_digest.as_deref(),
        Some(action.digest.as_str())
    );
    one_shot.verify_signature(&keys.issuer_verifying()).unwrap();
    let one_shot_lease_id = one_shot.lease_id.clone();
    env.lease_chain = vec![LeaseId::from_uuid(
        Uuid::parse_str(&one_shot_lease_id).expect("one-shot id is a UUID").as_u128(),
    )];
    let map = LeaseTable::new();
    let map = map.with(one_shot);
    (env, map, one_shot_lease_id, keys, sessions, ledger)
}

fn authorize_fixture(
    env: &ActionEnvelope,
    map: &LeaseTable,
    sessions: &SessionRegistry,
    keys: &KernelKeys,
    tracker: &mut OneShotUses,
    nonces: &mut NonceStore,
    ledger: &mut BudgetLedger,
    outbox: &mut Outbox,
) -> PolicyDecision {
    authorize_envelope(
        env,
        &FakeResolver::default(),
        map,
        &RevocationIndex::new(),
        sessions,
        &issuer_resolver(keys),
        tracker,
        nonces,
        ledger,
        outbox,
        &AuthorizeParams {
            now_ms: 300,
            case_insensitive_fs: false,
            allow_approval_fallback: false,
            approval_ttl_ms: 0,
        },
    )
}

fn assert_deny_code(decision: &PolicyDecision, code: &str) {
    match &decision.outcome {
        DecisionOutcome::Deny { reason } => {
            assert_eq!(reason.code, code, "unexpected deny reason: {reason:?}")
        }
        other => panic!("expected deny, got {other:?}"),
    }
}

#[test]
fn authorize_envelope_binds_leaf_to_session() {
    let (env, map, one_shot_id, keys, sessions, mut ledger) = one_shot_fixture();
    let mut tracker = OneShotUses::new();
    let mut nonces = NonceStore::new();
    let mut outbox = Outbox::new();
    // Same valid chain, but presented by a different session: denied at
    // the session binding, before any consumption step is reachable.
    let mut intruder = env.clone();
    intruder.session_id = "ed25519:intruder-session".to_string();
    intruder.nonce = "intruder-nonce".to_string();
    let d = authorize_fixture(
        &intruder,
        &map,
        &sessions,
        &keys,
        &mut tracker,
        &mut nonces,
        &mut ledger,
        &mut outbox,
    );
    assert!(!d.is_allow());
    assert_deny_code(&d, "subject_mismatch");
    assert!(
        !tracker.is_consumed(&one_shot_id),
        "a cross-session presentation must not burn the one-shot grant"
    );
    // The legitimate session presents the verbatim approved envelope
    // (the nonce the human approved) and is allowed.
    let d2 = authorize_fixture(
        &env,
        &map,
        &sessions,
        &keys,
        &mut tracker,
        &mut nonces,
        &mut ledger,
        &mut outbox,
    );
    assert!(d2.is_allow(), "legitimate session denied: {:?}", d2.outcome);
    assert!(tracker.is_consumed(&one_shot_id));
}

#[test]
fn one_shot_lease_rejects_tampered_arguments() {
    let (env, map, one_shot_id, keys, sessions, mut ledger) = one_shot_fixture();
    let mut tracker = OneShotUses::new();
    let mut nonces = NonceStore::new();
    let mut outbox = Outbox::new();
    // Same tool, resources, and effects — but different arguments than
    // the human approved. The structural scope still covers this
    // envelope; only the digest binding denies it.
    let mut tampered = env.clone();
    tampered.arguments = arguments(2);
    tampered.nonce = "tampered-nonce".to_string();
    let d = authorize_fixture(
        &tampered,
        &map,
        &sessions,
        &keys,
        &mut tracker,
        &mut nonces,
        &mut ledger,
        &mut outbox,
    );
    assert!(!d.is_allow());
    assert_deny_code(&d, "scope_exceeded");
    assert!(
        !tracker.is_consumed(&one_shot_id),
        "a digest-mismatched envelope must not burn the one-shot grant"
    );
    // The verbatim approved envelope still authorizes afterwards.
    let d2 = authorize_fixture(
        &env,
        &map,
        &sessions,
        &keys,
        &mut tracker,
        &mut nonces,
        &mut ledger,
        &mut outbox,
    );
    assert!(
        d2.is_allow(),
        "verbatim approved action denied: {:?}",
        d2.outcome
    );
    assert!(tracker.is_consumed(&one_shot_id));
}

#[test]
fn one_shot_lease_survives_scope_denied_authorization() {
    let (env, map, one_shot_id, keys, sessions, mut ledger) = one_shot_fixture();
    let mut tracker = OneShotUses::new();
    let mut nonces = NonceStore::new();
    let mut outbox = Outbox::new();
    // An out-of-scope action presented against the one-shot lease is
    // denied without consuming the grant. (The digest binding fires
    // first for a differing envelope; either way the deny precedes
    // consumption.)
    let mut bad = env.clone();
    bad.resources.paths = vec![PathResource {
        path: "/etc/passwd".to_string(),
        rights: Rights::Read,
    }];
    bad.nonce = "bad-scope-nonce".to_string();
    let d = authorize_fixture(
        &bad,
        &map,
        &sessions,
        &keys,
        &mut tracker,
        &mut nonces,
        &mut ledger,
        &mut outbox,
    );
    assert!(!d.is_allow());
    assert_deny_code(&d, "scope_exceeded");
    assert!(
        !tracker.is_consumed(&one_shot_id),
        "a denied envelope must not burn the one-shot grant"
    );
    // The exact approved action still authorizes afterwards.
    let d2 = authorize_fixture(
        &env,
        &map,
        &sessions,
        &keys,
        &mut tracker,
        &mut nonces,
        &mut ledger,
        &mut outbox,
    );
    assert!(
        d2.is_allow(),
        "approved action denied after scope-denied attempt: {:?}",
        d2.outcome
    );
    assert!(tracker.is_consumed(&one_shot_id));
}

#[test]
fn one_shot_lease_survives_budget_denied_authorization() {
    let (env, map, one_shot_id, keys, sessions, mut ledger) = one_shot_fixture();
    // Exhaust the one-shot's single execution directly on the ledger,
    // so the authorize-time reservation fails after the digest and
    // scope checks have passed.
    let need = Budget::new().set(BudgetDimension::Executions, 1);
    ledger
        .reserve_execution(&one_shot_id, "some-other-action", &need, "prior-hold", 200)
        .unwrap();
    let mut tracker = OneShotUses::new();
    let mut nonces = NonceStore::new();
    let mut outbox = Outbox::new();
    let d = authorize_fixture(
        &env,
        &map,
        &sessions,
        &keys,
        &mut tracker,
        &mut nonces,
        &mut ledger,
        &mut outbox,
    );
    assert!(!d.is_allow());
    assert_deny_code(&d, "scope_exceeded");
    assert!(
        !tracker.is_consumed(&one_shot_id),
        "a budget-denied envelope must not burn the one-shot grant"
    );
}

#[test]
fn approval_fallback_does_not_consume_action_nonce() {
    let (env, map, one_shot_id, keys, sessions, mut ledger) = one_shot_fixture();
    // The pre-approval presentation carries no lease chain: it goes to
    // the human-approval fallback and must come back pending.
    let mut pending_env = env.clone();
    pending_env.lease_chain = vec![];
    let mut tracker = OneShotUses::new();
    let mut nonces = NonceStore::new();
    let mut outbox = Outbox::new();
    let fallback_params = AuthorizeParams {
        now_ms: 300,
        case_insensitive_fs: false,
        allow_approval_fallback: true,
        approval_ttl_ms: 60_000,
    };
    let d = authorize_envelope(
        &pending_env,
        &FakeResolver::default(),
        &map,
        &RevocationIndex::new(),
        &sessions,
        &issuer_resolver(&keys),
        &mut tracker,
        &mut nonces,
        &mut ledger,
        &mut outbox,
        &fallback_params,
    );
    assert!(
        matches!(d.outcome, DecisionOutcome::PendingApproval { .. }),
        "expected pending approval, got {:?}",
        d.outcome
    );
    assert_eq!(outbox.pending.len(), 1);
    assert_eq!(outbox.pending[0].nonce, pending_env.nonce);
    // The human approves; the verbatim envelope is re-presented with
    // the minted one-shot lease. The nonce the human approved must
    // still be usable — the fallback must not have burned it.
    let d2 = authorize_envelope(
        &env,
        &FakeResolver::default(),
        &map,
        &RevocationIndex::new(),
        &sessions,
        &issuer_resolver(&keys),
        &mut tracker,
        &mut nonces,
        &mut ledger,
        &mut outbox,
        &AuthorizeParams {
            now_ms: 300,
            case_insensitive_fs: false,
            allow_approval_fallback: true,
            approval_ttl_ms: 60_000,
        },
    );
    assert!(
        d2.is_allow(),
        "approved re-presentation denied (nonce burned by fallback?): {:?}",
        d2.outcome
    );
    assert!(tracker.is_consumed(&one_shot_id));
}

#[test]
fn one_shot_lease_without_digest_fails_closed() {
    let (env, map, one_shot_id, keys, sessions, mut ledger) = one_shot_fixture();
    // A one-shot lease minted before digest binding (no approved
    // digest recorded) cannot authorize: fail closed, never consume.
    let mut legacy = map.lease(&one_shot_id).unwrap();
    legacy.approved_action_digest = None;
    // Re-sign so the chain validates and the test exercises the digest
    // binding itself, not signature verification.
    let sig = keys.issuer_sign(legacy.signing_bytes().unwrap().as_bytes());
    legacy.signature = hex::encode(sig);
    let legacy_map = LeaseTable::new();
    let legacy_map = legacy_map.with(legacy);
    let mut tracker = OneShotUses::new();
    let mut nonces = NonceStore::new();
    let mut outbox = Outbox::new();
    let d = authorize_fixture(
        &env,
        &legacy_map,
        &sessions,
        &keys,
        &mut tracker,
        &mut nonces,
        &mut ledger,
        &mut outbox,
    );
    assert!(!d.is_allow());
    assert_deny_code(&d, "scope_exceeded");
}

/// A root lease minted under a retired generation validates through the
/// resolver (retirement does not invalidate outstanding leases).
#[test]
fn root_validates_via_retired_generation() {
    let (old_keys, _, session_vk) = test_keys();
    let mut sessions = SessionRegistry::new();
    sessions.register("ed25519:parent-session".to_string(), None, session_vk, 0);
    let mut ledger = BudgetLedger::new();
    let mut nonces = NonceStore::new();
    let doc = mint_root_lease(
        root_params(parent_scope()),
        &old_keys,
        &sessions,
        &mut ledger,
        &mut nonces,
        100,
    )
    .unwrap();
    // Simulates post-restart: the resolver carries the retired
    // generation's recorded verifying key.
    let resolver = issuer_resolver(&old_keys);
    let map = LeaseTable::new();
    let map = map.with(doc.clone());
    let validated = validate_chain(
        &map,
        &vec![doc.lease_id.clone()],
        &RevocationIndex::new(),
        &sessions,
        &resolver,
        &OneShotUses::new(),
        300,
    )
    .unwrap();
    assert_eq!(validated.leaf.lease_id, doc.lease_id);
}

/// A root lease naming an unrecorded generation fails closed with
/// `UnknownIssuerGeneration` (distinct from `IssuerMismatch`).
#[test]
fn unknown_generation_fails_closed() {
    let (old_keys, _, session_vk) = test_keys();
    let mut sessions = SessionRegistry::new();
    sessions.register("ed25519:parent-session".to_string(), None, session_vk, 0);
    let mut ledger = BudgetLedger::new();
    let mut nonces = NonceStore::new();
    let doc = mint_root_lease(
        root_params(parent_scope()),
        &old_keys,
        &sessions,
        &mut ledger,
        &mut nonces,
        100,
    )
    .unwrap();
    // Resolver knows only a different (fresh) generation.
    let (new_keys, _, _) = test_keys();
    let resolver = issuer_resolver(&new_keys);
    let map = LeaseTable::new();
    let map = map.with(doc.clone());
    let err = validate_chain(
        &map,
        &vec![doc.lease_id.clone()],
        &RevocationIndex::new(),
        &sessions,
        &resolver,
        &OneShotUses::new(),
        300,
    )
    .expect_err("unknown generation must fail closed");
    assert!(
        matches!(err, LeaseError::UnknownIssuerGeneration(ref id) if id == &old_keys.issuer_key_id),
        "got {err:?}"
    );
}

/// A killed generation fails closed with `KilledIssuerGeneration`,
/// checked before key resolution.
#[test]
fn killed_generation_fails_closed() {
    let (old_keys, _, session_vk) = test_keys();
    let mut sessions = SessionRegistry::new();
    sessions.register("ed25519:parent-session".to_string(), None, session_vk, 0);
    let mut ledger = BudgetLedger::new();
    let mut nonces = NonceStore::new();
    let doc = mint_root_lease(
        root_params(parent_scope()),
        &old_keys,
        &sessions,
        &mut ledger,
        &mut nonces,
        100,
    )
    .unwrap();
    let resolver = issuer_resolver(&old_keys);
    let resolver = resolver.kill(&old_keys.issuer_key_id);
    let map = LeaseTable::new();
    let map = map.with(doc.clone());
    let err = validate_chain(
        &map,
        &vec![doc.lease_id.clone()],
        &RevocationIndex::new(),
        &sessions,
        &resolver,
        &OneShotUses::new(),
        300,
    )
    .expect_err("killed generation must fail closed");
    assert!(
        matches!(err, LeaseError::KilledIssuerGeneration(ref id) if id == &old_keys.issuer_key_id),
        "got {err:?}"
    );
}

/// Root leases longer than 30 days are refused at mint time.
#[test]
fn root_mint_rejects_overlong_lifetime() {
    let (keys, _, session_vk) = test_keys();
    let mut sessions = SessionRegistry::new();
    sessions.register("ed25519:parent-session".to_string(), None, session_vk, 0);
    let mut ledger = BudgetLedger::new();
    let mut nonces = NonceStore::new();
    let mut params = root_params(parent_scope());
    params.lease_nonce = "overlong-nonce".to_string();
    params.issued_at_ms = 100;
    params.limits.not_before_ms = 100;
    params.limits.expires_at_ms = 100 + MAX_ROOT_LEASE_LIFETIME_MS + 1;
    let err = mint_root_lease(params, &keys, &sessions, &mut ledger, &mut nonces, 100)
        .expect_err("over-30-day root lease must be refused");
    assert!(
        matches!(err, LeaseError::ExceedsMaxLifetime(l, m) if l == MAX_ROOT_LEASE_LIFETIME_MS + 1 && m == MAX_ROOT_LEASE_LIFETIME_MS),
        "got {err:?}"
    );
    // Exactly at the cap still mints.
    let mut params = root_params(parent_scope());
    params.lease_nonce = "at-cap-nonce".to_string();
    params.issued_at_ms = 100;
    params.limits.not_before_ms = 100;
    params.limits.expires_at_ms = 100 + MAX_ROOT_LEASE_LIFETIME_MS;
    mint_root_lease(params, &keys, &sessions, &mut ledger, &mut nonces, 100)
        .expect("30-day root lease mints");
}

/// The 30-day cap is computed from the trusted authority clock, not
/// the caller-supplied issued_at_ms: setting issued_at_ms near
/// expires_at_ms must not smuggle a year-long lease past the cap.
#[test]
fn root_mint_rejects_spoofed_issued_at() {
    let (keys, _, session_vk) = test_keys();
    let mut sessions = SessionRegistry::new();
    sessions.register("ed25519:parent-session".to_string(), None, session_vk, 0);
    let mut ledger = BudgetLedger::new();
    let mut nonces = NonceStore::new();
    let now = 1_000_000;
    let year_ms = 365 * 24 * 60 * 60 * 1000;
    let mut params = root_params(parent_scope());
    params.lease_nonce = "spoofed-issued-at".to_string();
    params.limits.not_before_ms = now;
    params.limits.expires_at_ms = now + year_ms;
    // Bypass attempt: 1ms of "computed" lifetime, a year of actual use.
    params.issued_at_ms = now + year_ms - 1;
    let err = mint_root_lease(params, &keys, &sessions, &mut ledger, &mut nonces, now)
        .expect_err("spoofed issued_at must not bypass the lifetime cap");
    assert!(
        matches!(err, LeaseError::ExceedsMaxLifetime(l, m) if l == year_ms && m == MAX_ROOT_LEASE_LIFETIME_MS),
        "got {err:?}"
    );
}

/// A root lease cannot claim to have been issued in the future.
#[test]
fn root_mint_rejects_future_issued_at() {
    let (keys, _, session_vk) = test_keys();
    let mut sessions = SessionRegistry::new();
    sessions.register("ed25519:parent-session".to_string(), None, session_vk, 0);
    let mut ledger = BudgetLedger::new();
    let mut nonces = NonceStore::new();
    let mut params = root_params(parent_scope());
    params.lease_nonce = "future-issued-at".to_string();
    params.issued_at_ms = 200;
    let err = mint_root_lease(params, &keys, &sessions, &mut ledger, &mut nonces, 100)
        .expect_err("future issued_at must be refused");
    assert!(
        matches!(err, LeaseError::IssuedInFuture(200, 100)),
        "got {err:?}"
    );
}

/// A root-only chain for a TTL-expired session fails closed: the
/// session bound is enforced for ordinary root leases, not just
/// after a restart or for delegated chains.
#[test]
fn root_chain_rejects_ttl_expired_session() {
    let (keys, _, session_vk) = test_keys();
    let mut sessions = SessionRegistry::new();
    sessions.set_max_lifetime(Some(DEFAULT_SESSION_MAX_LIFETIME_MS));
    sessions.register("ed25519:parent-session".to_string(), None, session_vk, 0);
    let mut ledger = BudgetLedger::new();
    let mut nonces = NonceStore::new();
    let mut params = root_params(parent_scope());
    params.lease_nonce = "ttl-root-nonce".to_string();
    // Lease outlives the session TTL so the TTL check is the one
    // that fires.
    params.limits.expires_at_ms = 2 * DEFAULT_SESSION_MAX_LIFETIME_MS;
    let root = mint_root_lease(params, &keys, &sessions, &mut ledger, &mut nonces, 100).unwrap();
    let map = LeaseTable::new();
    let map = map.with(root.clone());
    let revocations = RevocationIndex::new();
    let one_shot = OneShotUses::new();
    let chain_ids = vec![root.lease_id.clone()];
    // Within the TTL the root chain validates.
    validate_chain(
        &map,
        &chain_ids,
        &revocations,
        &sessions,
        &issuer_resolver(&keys),
        &one_shot,
        DEFAULT_SESSION_MAX_LIFETIME_MS - 1,
    )
    .expect("root chain validates within session TTL");
    // Past the session TTL it fails closed.
    let err = validate_chain(
        &map,
        &chain_ids,
        &revocations,
        &sessions,
        &issuer_resolver(&keys),
        &one_shot,
        DEFAULT_SESSION_MAX_LIFETIME_MS + 1,
    )
    .expect_err("TTL-expired session must not authorize");
    assert!(matches!(err, LeaseError::SubjectInactive(_)), "got {err:?}");
}

/// Session TTL: a record past `max_lifetime_ms` is not a live
/// descendant, at every hop of the walk.
#[test]
fn session_ttl_bounds_descendant_check() {
    let parent_vk = SigningKey::generate().verifying_key();
    let child_vk = SigningKey::generate().verifying_key();
    let mut sessions = SessionRegistry::new();
    sessions.set_max_lifetime(Some(DEFAULT_SESSION_MAX_LIFETIME_MS));
    sessions.register("ed25519:parent-session".to_string(), None, parent_vk, 0);
    sessions.register(
        "ed25519:child-session".to_string(),
        Some("ed25519:parent-session".to_string()),
        child_vk,
        0,
    );
    // Within the TTL both walk.
    assert!(sessions.is_active_descendant(
        "ed25519:child-session",
        "ed25519:parent-session",
        DEFAULT_SESSION_MAX_LIFETIME_MS - 1
    ));
    // Past the TTL the child is dead at every hop (parent is expired
    // too, so the walk fails even if the child's own record were fresh).
    assert!(!sessions.is_active_descendant(
        "ed25519:child-session",
        "ed25519:parent-session",
        DEFAULT_SESSION_MAX_LIFETIME_MS + 1
    ));
    assert!(!sessions.is_active_descendant(
        "ed25519:parent-session",
        "ed25519:parent-session",
        DEFAULT_SESSION_MAX_LIFETIME_MS + 1
    ));
    // Re-registered fresh, the child walks again.
    sessions.register(
        "ed25519:child-session".to_string(),
        Some("ed25519:parent-session".to_string()),
        child_vk,
        DEFAULT_SESSION_MAX_LIFETIME_MS,
    );
    assert!(sessions.is_active_descendant(
        "ed25519:child-session",
        "ed25519:child-session",
        DEFAULT_SESSION_MAX_LIFETIME_MS + 1
    ));
}

/// `active_descendants_inclusive` returns the TTL-checked subtree,
/// inclusive of the root, excluding inactive records.
#[test]
fn active_descendants_inclusive_correctness() {
    let vks: Vec<VerifyingKey> = (0..4)
        .map(|_| SigningKey::generate().verifying_key())
        .collect();
    let mut sessions = SessionRegistry::new();
    sessions.register("root".to_string(), None, vks[0], 0);
    sessions.register("a".to_string(), Some("root".to_string()), vks[1], 0);
    sessions.register("b".to_string(), Some("a".to_string()), vks[2], 0);
    sessions.register("sibling".to_string(), None, vks[3], 0);
    assert_eq!(
        sessions.active_descendants_inclusive("root", 1_000),
        vec!["a".to_string(), "b".to_string(), "root".to_string()]
    );
    // Deactivating `a` prunes its subtree but not the root.
    sessions.deactivate("a");
    assert_eq!(
        sessions.active_descendants_inclusive("root", 1_000),
        vec!["root".to_string()]
    );
    // TTL expiry prunes everything.
    sessions.set_max_lifetime(Some(500));
    assert!(
        sessions
            .active_descendants_inclusive("root", 1_000)
            .is_empty()
    );
    // `get()` keeps its no-TTL-filter semantics: the host decides
    // hydration.
    assert!(sessions.get("root").is_some());
}

#[test]
fn the_audit_of_a_lease_covers_its_ancestry() {
    let (keys, session_key, session_vk) = test_keys();
    let child_key = SigningKey::generate();
    let sessions = test_sessions(session_vk, child_key.verifying_key());
    let mut ledger = BudgetLedger::new();
    let mut nonces = NonceStore::new();
    let root = mint_root_lease(
        root_params(parent_scope()),
        &keys,
        &sessions,
        &mut ledger,
        &mut nonces,
        100,
    )
    .unwrap();
    let mut scope = ResourceScope::empty();
    scope.effects.push(EffectClass::Read);
    let child = mint_child_lease(
        &root,
        ChildLeaseParams {
            lease_id: "lease-child-1".to_string(),
            subject: "ed25519:child-session".to_string(),
            scope,
            limits: LeaseLimits {
                not_before_ms: 0,
                expires_at_ms: 500_000,
                budget: Budget::new().set(BudgetDimension::Executions, 10),
                max_executions: None,
                single_use: false,
            },
            depth_limit: 4,
            lease_nonce: "child-nonce-audit".to_string(),
            issued_at_ms: 200,
        },
        &session_key,
        &sessions,
        &RevocationIndex::new(),
        &mut ledger,
        &mut nonces,
        200,
    )
    .unwrap();
    let mut log = KernelAuditLog::new(MemoryAuditStore::default());
    for id in [root.lease_id.as_str(), child.lease_id.as_str(), "lease-of-another"] {
        log.append(
            "kernel",
            "digest",
            "lease.allow",
            "1970-01-01T00:00:01Z",
            Json::Object(vec![(
                "lease_id".to_string(),
                Json::Str(id.to_string()),
            )]),
        )
        .unwrap();
    }
    let leases = LeaseTable::new().with(root.clone()).with(child.clone());
    let queries = AuditQueries::new(log.store().events());
    assert_eq!(
        queries
            .events_for_lease_ancestry(&child.lease_id, &leases)
            .len(),
        2
    );
    assert_eq!(
        queries
            .events_for_lease_ancestry(&root.lease_id, &leases)
            .len(),
        1
    );
}

#[test]
fn a_lost_single_use_frees_what_was_held() {
    let (keys, _, session_vk) = test_keys();
    let mut sessions = SessionRegistry::new();
    sessions.register("ed25519:parent-session".to_string(), None, session_vk, 0);
    let mut ledger = BudgetLedger::new();
    let mut nonces = NonceStore::new();
    let mut params = root_params(parent_scope());
    params.limits.single_use = true;
    let leaf = mint_root_lease(params, &keys, &sessions, &mut ledger, &mut nonces, 100).unwrap();
    let need = Budget::new().set(BudgetDimension::Executions, 1);
    let held = |ledger: &BudgetLedger| ledger.account_summary("lease-root-1").unwrap().2;

    let first = ledger
        .reserve_execution("lease-root-1", "action-1", &need, "n1", 200)
        .unwrap();
    assert!(conclude(&leaf, &first, true, &mut ledger, 200).is_allow());
    assert_eq!(held(&ledger), need);

    let second = ledger
        .reserve_execution("lease-root-1", "action-2", &need, "n2", 201)
        .unwrap();
    let denied = conclude(&leaf, &second, false, &mut ledger, 201);
    assert!(!denied.is_allow());
    assert_eq!(held(&ledger), need);

    // A lease for many uses does not ask who came first.
    let mut standing = leaf.clone();
    standing.limits.single_use = false;
    let third = ledger
        .reserve_execution("lease-root-1", "action-3", &need, "n3", 202)
        .unwrap();
    assert!(conclude(&standing, &third, false, &mut ledger, 202).is_allow());
}

#[test]
fn uses_are_recorded_once() {
    let mut uses = OneShotUses::new();
    assert!(!uses.is_consumed("a"));
    assert!(uses.consume("a"));
    assert!(uses.is_consumed("a"));
    assert!(!uses.consume("a"));
    assert!(!uses.is_consumed("b"));
    assert!(uses.consume("b"));
}
