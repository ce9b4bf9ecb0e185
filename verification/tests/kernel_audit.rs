//! The kernel's audit chain.

use lumen_core::json::Json;
use lumen_core::kernel_audit::chain::{
    AuditError, AuditStore, KernelAuditError, KernelAuditLog, MemoryAuditStore, GENESIS_PREV_HASH,
};
use lumen_core::kernel_audit::queries::AuditQueries;
use lumen_core::kernel_audit::{redact_details, Secret};
use lumen_core::lease::session::KernelKeys;

const FIRST: &str = "1970-01-01T00:00:01Z";
const SECOND: &str = "1970-01-01T00:00:02Z";

fn text(s: &str) -> Json {
    Json::Str(s.to_string())
}

fn object(members: Vec<(&str, Json)>) -> Json {
    Json::Object(members.into_iter().map(|(k, v)| (k.to_string(), v)).collect())
}

fn member<'a>(value: &'a Json, key: &str) -> &'a Json {
    match value {
        Json::Object(m) => &m.iter().find(|(k, _)| k == key).expect("member").1,
        other => panic!("no object: {other:?}"),
    }
}

fn item(value: &Json, i: usize) -> &Json {
    match value {
        Json::Array(a) => &a[i],
        other => panic!("no array: {other:?}"),
    }
}

fn test_log() -> KernelAuditLog<MemoryAuditStore> {
    KernelAuditLog::new(MemoryAuditStore::default())
}

#[test]
fn append_chains_and_redacts() {
    let mut log = test_log();
    let e0 = log
        .append(
            "kernel",
            "digest-1",
            "lease.allow",
            FIRST,
            object(vec![
                ("lease_id", text("lease-1")),
                ("api_key", text("sk-secret-value")),
                ("note", text("ok")),
            ]),
        )
        .unwrap();
    assert_eq!(e0.seq, 0);
    assert_eq!(e0.prev_hash, GENESIS_PREV_HASH);
    // The secret never entered the chain.
    assert_eq!(member(&e0.details, "api_key"), &text("[REDACTED]"));
    assert_eq!(member(&e0.details, "note"), &text("ok"));
    let e1 = log
        .append("kernel", "digest-1", "lease.deny", SECOND, object(vec![]))
        .unwrap();
    assert_eq!(e1.seq, 1);
    assert_eq!(e1.prev_hash, e0.hash);
    // With no checkpoints, verification reduces to chain verification.
    let keys = KernelKeys::generate();
    log.verify(&keys.host_verifying(), &keys.host_key_id)
        .unwrap();
}

#[test]
fn checkpoint_and_verify() {
    let keys = KernelKeys::generate();
    let mut log = test_log();
    log.append(
        "kernel",
        "d1",
        "lease.allow",
        FIRST,
        object(vec![("lease_id", text("l1"))]),
    )
    .unwrap();
    log.append(
        "kernel",
        "d2",
        "lease.deny",
        SECOND,
        object(vec![("lease_id", text("l2"))]),
    )
    .unwrap();
    let link = log.checkpoint(1, &keys).unwrap();
    assert_eq!(link.key_id, keys.host_key_id);
    log.verify(&keys.host_verifying(), &keys.host_key_id)
        .unwrap();

    // Tampering with a sealed event breaks verification.
    let mut tampered = MemoryAuditStore::default();
    for e in log.store().events() {
        let mut e = e.clone();
        if e.seq == 0 {
            e.decision = "lease.allow.tampered".to_string();
        }
        tampered.append_event(e);
    }
    for c in log.store().checkpoints() {
        tampered.checkpoint(c.clone());
    }
    let bad = KernelAuditLog::new(tampered);
    assert!(bad
        .verify(&keys.host_verifying(), &keys.host_key_id)
        .is_err());

    // A checkpoint signed by a different key is rejected.
    let other = KernelKeys::generate();
    let mut log2 = test_log();
    log2.append("kernel", "d1", "lease.allow", FIRST, object(vec![]))
        .unwrap();
    log2.checkpoint(0, &other).unwrap();
    assert!(matches!(
        log2.verify(&keys.host_verifying(), &keys.host_key_id),
        Err(KernelAuditError::WrongCheckpointKey(_))
    ));
}

#[test]
fn redaction_is_deterministic() {
    let mut a = object(vec![
        ("Password", text("hunter2")),
        (
            "nested",
            object(vec![("access_token", text("tok")), ("safe", Json::Int(1))]),
        ),
        (
            "list",
            Json::Array(vec![object(vec![("cookie", text("c"))]), text("sk-abc123")]),
        ),
        ("secret_refs", Json::Array(vec![text("db-password")])),
    ]);
    redact_details(&mut a);
    let mut b = a.clone();
    redact_details(&mut b);
    assert_eq!(a, b);
    assert_eq!(member(&a, "Password"), &text("[REDACTED]"));
    assert_eq!(
        member(member(&a, "nested"), "access_token"),
        &text("[REDACTED]")
    );
    assert_eq!(
        member(item(member(&a, "list"), 0), "cookie"),
        &text("[REDACTED]")
    );
    assert_eq!(item(member(&a, "list"), 1), &text("[REDACTED]"));
    // References survive: they are opaque identifiers, not secrets.
    assert_eq!(
        member(&a, "secret_refs"),
        &Json::Array(vec![text("db-password")])
    );
    assert_eq!(member(member(&a, "nested"), "safe"), &Json::Int(1));
}

#[test]
fn secret_wrapper_never_leaks() {
    let s = Secret::new("super-secret-value".to_string());
    assert_eq!(s.shown(), "[REDACTED]");
    assert_eq!(s.expose(), "super-secret-value");
}

#[test]
fn queries_find_provenance() {
    let mut log = test_log();
    log.append(
        "ed25519:session",
        "digest-9",
        "lease.allow",
        FIRST,
        object(vec![
            ("lease_id", text("lease-9")),
            ("approval_id", text("appr-9")),
        ]),
    )
    .unwrap();
    log.append("kernel", "", "checkpoint", SECOND, object(vec![]))
        .unwrap();
    let q = AuditQueries::new(log.store().events());
    assert_eq!(q.events_for_action("digest-9").len(), 1);
    assert_eq!(q.events_for_actor("ed25519:session").len(), 1);
    assert_eq!(q.events_for_lease("lease-9").len(), 1);
    assert_eq!(q.events_for_approval("appr-9").len(), 1);
    assert_eq!(q.events_in_range(0, 0).len(), 1);
    assert_eq!(q.action_index().get("digest-9"), Some(&0));
    assert_eq!(q.action_index().get(""), None);
}

#[test]
fn an_empty_chain_has_no_checkpoint() {
    let keys = KernelKeys::generate();
    let mut log = test_log();
    assert!(matches!(
        log.checkpoint(0, &keys),
        Err(KernelAuditError::EmptyChain)
    ));
    log.verify(&keys.host_verifying(), &keys.host_key_id)
        .unwrap();
}

#[test]
fn a_forged_checkpoint_is_refused() {
    let keys = KernelKeys::generate();
    let mut log = test_log();
    log.append("kernel", "d", "lease.allow", FIRST, object(vec![]))
        .unwrap();
    let mut link = log.checkpoint(0, &keys).unwrap();
    let mut store = MemoryAuditStore::default();
    store.append_event(log.store().events()[0].clone());
    link.signature = "00".repeat(64);
    store.checkpoint(link);
    assert!(matches!(
        KernelAuditLog::new(store).verify(&keys.host_verifying(), &keys.host_key_id),
        Err(KernelAuditError::BadCheckpointSignature)
    ));
}

#[test]
fn a_gap_in_the_sequence_is_found() {
    let keys = KernelKeys::generate();
    let mut log = test_log();
    log.append("kernel", "d", "lease.allow", FIRST, object(vec![]))
        .unwrap();
    log.append("kernel", "d", "lease.deny", SECOND, object(vec![]))
        .unwrap();
    let mut store = MemoryAuditStore::default();
    store.append_event(log.store().events()[1].clone());
    assert!(matches!(
        KernelAuditLog::new(store).verify(&keys.host_verifying(), &keys.host_key_id),
        Err(KernelAuditError::Contract(AuditError::SequenceGap {
            expected: 0,
            actual: 1
        }))
    ));
}

#[test]
fn errors_of_the_log_have_messages() {
    assert_eq!(
        KernelAuditError::CheckpointMismatch(7, "ab".to_string()).message(),
        "checkpoint for seq 7 does not match chain hash ab"
    );
    assert_eq!(
        KernelAuditError::WrongCheckpointKey("k".to_string()).message(),
        "checkpoint key k is not the host key"
    );
    assert_eq!(KernelAuditError::EmptyChain.message(), "no events to checkpoint");
    assert_eq!(
        KernelAuditError::BadCheckpointSignature.message(),
        "bad checkpoint signature"
    );
    assert_eq!(
        KernelAuditError::Contract(AuditError::HashMismatch { seq: 3 }).message(),
        "audit contract error: audit event 3 hash does not match its content"
    );
    assert_eq!(
        AuditError::SequenceGap {
            expected: 1,
            actual: 4
        }
        .message(),
        "audit sequence expected 1 but found 4"
    );
    assert_eq!(
        AuditError::PreviousHashMismatch { seq: 2 }.message(),
        "audit event 2 does not reference the expected previous hash"
    );
}
