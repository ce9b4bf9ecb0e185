//! Error messages, builders and smaller queries.

use lumen_core::action::{ActionKind, CanonicalValue};
use lumen_core::approval::TimestampMillis;
use lumen_core::audit::{AuditIntegrityError, AuditValueError};
use lumen_core::automation::service_principal;
use lumen_core::budget::{Budget, BudgetDimension, BudgetLedger};
use lumen_core::canonical::ports::PortSet;
use lumen_core::canonical::resource::{effects_subset, EffectClass};
use lumen_core::canonical::scope::ResourceScope;
use lumen_core::capability::ScopeError;
use lumen_core::clock::time_of_reading;
use lumen_core::context::{data_class_str, most_restrictive, parse_data_class};
use lumen_core::egress::DataClass;
use lumen_core::identity::{ChannelDestination, IdentityError, PrincipalId};
use lumen_core::ip::{classify_ip, classify_net, IpAddress, IpRange, NetworkClass};
use lumen_core::lease::session::{KernelKeys, RevocationIndex, SessionRegistry};
use lumen_core::model::{
    ActionProposal, ModelError, ModelGenerationConfig, ModelInput, ModelMessage, ModelRole, ModelTool,
    ModelToolCall, ReasoningProfile, ReasoningWireFormat,
};
use lumen_core::pi_boundary::envelope::EffectClasses;
use lumen_core::pi_boundary::wire::{constant_time_eq, line_too_long};
use lumen_core::pi_boundary::{AuditLog, LeaseId, NullSandboxDriver, ResourceSet, SandboxError};
use lumen_core::provider::ProviderError;
use lumen_core::text::i64_text;

#[test]
fn errors_have_messages() {
    assert_eq!(
        AuditIntegrityError::SequenceGap {
            expected: 3,
            actual: -4
        }
        .message(),
        "audit sequence expected 3 but found -4"
    );
    assert_eq!(
        AuditIntegrityError::PreviousHashMismatch { sequence: 7 }.message(),
        "audit event 7 does not reference the expected previous hash"
    );
    assert_eq!(
        AuditIntegrityError::HashMismatch { sequence: 7 }.message(),
        "audit event 7 hash does not match its content"
    );
    assert_eq!(
        AuditIntegrityError::InvalidValue(AuditValueError::InvalidHash).message(),
        "audit hash must contain 64 lowercase hexadecimal characters"
    );
    assert_eq!(
        AuditIntegrityError::Storage("gone".to_string()).message(),
        "could not read audit storage: gone"
    );
    assert_eq!(
        AuditValueError::UnknownOutcome("odd".to_string()).message(),
        "unknown audit outcome: odd"
    );
    assert_eq!(
        ScopeError::InvalidWorkspacePath("a//b".to_string()).message(),
        "workspace path is not canonical: a//b"
    );
    assert_eq!(
        IdentityError::InvalidChannelPart { field: "provider" }.message(),
        "channel identity provider must be non-empty, bounded, and scope-safe"
    );
    assert_eq!(
        SandboxError::QuotaExceeded("memory".to_string()).message(),
        "sandbox quota exceeded: memory"
    );
    assert_eq!(
        NullSandboxDriver.refusal().message(),
        "sandbox unavailable: phase-0 spike: no sandbox driver; execution is refused"
    );
    assert_eq!(
        ProviderError::configuration("no key".to_string()).to_text(),
        "provider Configuration error: no key"
    );
    assert_eq!(i64_text(i64::MIN), "-9223372036854775808");
}

#[test]
fn classes_have_names_and_an_order() {
    for class in [
        DataClass::Public,
        DataClass::Workspace,
        DataClass::Sensitive,
        DataClass::Secret,
    ] {
        assert_eq!(parse_data_class(data_class_str(class)), Some(class));
        assert_eq!(class.may_leave_runtime(), class != DataClass::Secret);
    }
    assert_eq!(parse_data_class("Public"), None);
    assert_eq!(
        most_restrictive(DataClass::Sensitive, DataClass::Workspace),
        DataClass::Sensitive
    );
}

#[test]
fn channels_have_scopes() {
    let channel = ChannelDestination::new(
        "slack".to_string(),
        "team".to_string(),
        "general".to_string(),
    )
    .unwrap();
    assert_eq!(channel.as_scope_value(), "slack:team:general");
    assert!(matches!(
        ChannelDestination::new("slack".to_string(), "te:am".to_string(), "x".to_string()),
        Err(IdentityError::InvalidChannelPart { .. })
    ));
    assert_eq!(
        service_principal("scheduler".to_string()).unwrap(),
        PrincipalId::new("service".to_string(), "scheduler".to_string()).unwrap()
    );
    assert!(service_principal(String::new()).is_err());
}

#[test]
fn budgets_add_and_subtract_in_every_dimension() {
    let a = Budget::new()
        .set(BudgetDimension::Tokens, 5)
        .set(BudgetDimension::Executions, 2);
    let b = Budget::new().set(BudgetDimension::Tokens, 3);
    assert_eq!(
        a.checked_add(&b).unwrap().get(BudgetDimension::Tokens),
        8
    );
    assert_eq!(
        a.checked_sub(&b).unwrap().get(BudgetDimension::Executions),
        2
    );
    assert!(b.checked_sub(&a).is_none());
    assert!(b.saturating_sub(&a).is_zero());
    let full = Budget::new().set(BudgetDimension::Tokens, u64::MAX);
    assert!(full.checked_add(&b).is_none());
}

#[test]
fn held_executions_are_listed() {
    let mut ledger = BudgetLedger::new();
    ledger
        .register_lease("lease", &Budget::new().set(BudgetDimension::Executions, 2))
        .unwrap();
    let one = Budget::new().set(BudgetDimension::Executions, 1);
    let first = ledger
        .reserve_execution("lease", "action-1", &one, "nonce-1", 1)
        .unwrap();
    ledger
        .reserve_execution("lease", "action-2", &one, "nonce-2", 1)
        .unwrap();
    assert_eq!(ledger.active_executions().len(), 2);
    ledger.settle_execution(&first.id, &one, "settle-1", 2).unwrap();
    assert_eq!(ledger.active_executions().len(), 1);
    assert_eq!(ledger.all_executions().len(), 2);
}

#[test]
fn ports_are_merged() {
    let set = PortSet::from_ranges(&vec![(8080, 8090), (80, 80), (8091, 8100), (81, 81)]).unwrap();
    assert_eq!(set, PortSet::from_ranges(&vec![(80, 81), (8080, 8100)]).unwrap());
    assert!(set.contains(81));
    assert!(!set.contains(82));
    assert!(PortSet::from_ranges(&vec![(2, 1)]).is_err());
}

#[test]
fn addresses_are_classified() {
    assert_eq!(
        classify_ip(IpAddress::V4(0x7f00_0001)),
        NetworkClass::Loopback
    );
    assert_eq!(
        classify_ip(IpAddress::V4(0x0a00_0001)),
        NetworkClass::Private
    );
    assert_eq!(classify_ip(IpAddress::V4(0x0808_0808)), NetworkClass::Public);
    assert_eq!(classify_ip(IpAddress::V6(1)), NetworkClass::Loopback);
    // The mapped form of a private address is private.
    assert_eq!(
        classify_ip(IpAddress::V6(0xffff_0a00_0001)),
        NetworkClass::Private
    );
    let everything = IpRange {
        addr: IpAddress::V4(0),
        prefix: 0,
    };
    assert_ne!(classify_net(everything), NetworkClass::Public);
}

#[test]
fn flags_stand_for_effects() {
    let flags = EffectClasses {
        file_read: true,
        file_write: false,
        network_egress: false,
        network_ingress: true,
        process_spawn: false,
    };
    let effects = EffectClass::from_wire(&flags, 1);
    assert_eq!(
        effects,
        vec![
            EffectClass::Read,
            EffectClass::Network,
            EffectClass::SecretUse
        ]
    );
    assert!(effects_subset(&vec![EffectClass::Read], &effects));
    assert!(!effects_subset(&vec![EffectClass::Execute], &effects));
}

#[test]
fn the_host_key_signs() {
    let keys = KernelKeys::generate();
    let signature = keys.host_sign(b"checkpoint");
    assert!(keys.host_verifying().verify(b"checkpoint", &signature));
    assert!(!keys.host_verifying().verify(b"checkpoints", &signature));
}

#[test]
fn credentials_and_lines_are_measured() {
    assert!(constant_time_eq(b"token", b"token"));
    assert!(!constant_time_eq(b"token", b"tokem"));
    assert!(!constant_time_eq(b"token", b"toke"));
    assert!(!line_too_long(&"x".repeat(1 << 20)));
    assert!(line_too_long(&"x".repeat((1 << 20) + 1)));
    // Bytes are counted, not characters.
    assert!(line_too_long(&"\u{e9}".repeat((1 << 19) + 1)));
}

fn text(s: &str) -> CanonicalValue {
    CanonicalValue::String(s.to_string())
}

#[test]
fn inputs_are_built_up() {
    let call = || ModelToolCall::new("call-1".to_string(), "read".to_string(), text("x"));
    let generation = ModelGenerationConfig::new(
        ReasoningProfile::Deep,
        ReasoningWireFormat::OpenAi,
        Some("high".to_string()),
        100,
    )
    .unwrap();
    assert_eq!(generation.reasoning(), ReasoningProfile::Deep);
    assert_eq!(generation.provider_effort(), Some("high"));
    assert_eq!(generation.max_output_tokens(), 100);
    let input = ModelInput::new(vec![
        ModelMessage::assistant_tool_call(call()),
        ModelMessage::tool_result("call-1".to_string(), text("done")),
    ])
    .with_data_class(DataClass::Sensitive)
    .with_tools(vec![ModelTool::new(
        "read".to_string(),
        "reads".to_string(),
        "fs.read".to_string(),
        CanonicalValue::Null,
    )])
    .with_generation(generation);
    assert_eq!(input.data_class(), DataClass::Sensitive);
    assert_eq!(input.tools()[0].action_kind(), "fs.read");
    assert_eq!(input.messages()[0].role(), ModelRole::Assistant);
    assert_eq!(input.messages()[0].tool_call().unwrap().id(), "call-1");
    assert_eq!(input.messages()[1].role(), ModelRole::Tool);
    assert_eq!(input.messages()[1].tool_call_id(), Some("call-1"));
    let proposal = ActionProposal::new("fs.read".to_string(), text("x")).with_tool_call(call());
    assert_eq!(proposal.tool_call().unwrap().name(), "read");
    assert!(matches!(proposal.into_arguments(), CanonicalValue::String(s) if s == "x"));
}

#[test]
fn kinds_and_times_are_plain() {
    assert_eq!(TimestampMillis::new(5).as_u64(), 5);
    assert_eq!(ActionKind::new("fs.read".to_string()).unwrap().as_str(), "fs.read");
}

#[test]
fn a_clock_before_the_epoch_reads_zero() {
    assert_eq!(time_of_reading(Some(1_700_000_000_000)), 1_700_000_000_000);
    assert_eq!(time_of_reading(None), 0);
}

#[test]
fn ranges_are_public_exactly_if_they_hold_nothing_special() {
    let range = |addr: u32, prefix: u8| IpRange {
        addr: IpAddress::V4(addr),
        prefix,
    };
    assert_eq!(classify_net(range(0x0808_0800, 24)), NetworkClass::Public);
    // The enclosing block of a private one is not public.
    assert_eq!(classify_net(range(0x0b00_0000, 8)), NetworkClass::Public);
    assert_ne!(classify_net(range(0x0a00_0000, 7)), NetworkClass::Public);
    assert_eq!(IpRange::parse("10.0.0.0/8"), Some(range(0x0a00_0000, 8)));
    assert_eq!(IpRange::parse("10.0.0.0/33"), None);
    assert_eq!(IpRange::parse("10.0.0.0"), None);
}

#[test]
fn arguments_are_maps() {
    let unordered = CanonicalValue::Object(vec![
        ("b".to_string(), CanonicalValue::Null),
        ("a".to_string(), CanonicalValue::Null),
    ]);
    assert!(!unordered.is_wf());
    let twice = CanonicalValue::Object(vec![
        ("a".to_string(), CanonicalValue::Null),
        ("a".to_string(), CanonicalValue::Bool(true)),
    ]);
    assert!(!twice.is_wf());
    assert!(!CanonicalValue::Array(vec![CanonicalValue::Null, unordered]).is_wf());
    let built = CanonicalValue::object(vec![
        ("b".to_string(), CanonicalValue::Null),
        ("a".to_string(), CanonicalValue::text("x")),
    ]);
    assert!(built.is_wf());
    assert!(CanonicalValue::Array(vec![built]).is_wf());
}

#[test]
fn services_are_named_by_their_subject() {
    assert_eq!(
        service_principal(" x".to_string()),
        Err(IdentityError::InvalidPart { field: "subject" })
    );
    assert_eq!(
        service_principal("scheduler".to_string()).unwrap().provider(),
        "service"
    );
}

#[test]
fn defaults_are_empty() {
    assert_eq!(ResourceScope::default(), ResourceScope::empty());
    assert_eq!(ResourceSet::default().paths, vec![]);
    assert_eq!(AuditLog::default().len(), 0);
    assert_eq!(RevocationIndex::default().epoch(), 0);
    assert!(!SessionRegistry::default().is_subject_live("anyone", 0));
    assert_ne!(LeaseId::default(), LeaseId::default());
    assert_eq!(
        NullSandboxDriver::default().refusal(),
        NullSandboxDriver.refusal()
    );
}

#[test]
fn model_errors_say_what_failed() {
    let e = ModelError::new("no tokens".to_string());
    assert_eq!(e.message(), "no tokens");
    assert_eq!(e.to_text(), "model failed: no tokens");
}
