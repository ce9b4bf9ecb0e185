//! Audit records, provider routes and schedules.

use lumen_core::action::CanonicalValue;
use lumen_core::approval::TimestampMillis;
use lumen_core::audit::{
    AuditEvent, AuditEventId, AuditEventKind, AuditHash, AuditIntegrityError, AuditOutcome,
    AuditRecord, AuditValueError,
};
use lumen_core::automation::{
    AutomationError, JobId, JobRevision, OccurrenceKey, ScheduleSpec, SkillVersion,
};
use lumen_core::egress::{
    select_model_provider, DataClass, DestinationScope, EgressError, EndpointClass,
    ProviderEgressPolicy, ProviderId, ProviderRoute, RoutingFailure,
};

fn event() -> AuditEvent {
    AuditEvent::new(
        AuditEventId::from_uuid(3),
        TimestampMillis::new(4),
        AuditEventKind::ActionProposed,
        AuditOutcome::Success,
        None,
        CanonicalValue::text("payload"),
    )
}

#[test]
fn chained_records_verify() {
    let genesis = AuditHash::genesis();
    assert_eq!(genesis.as_str(), "0".repeat(64));
    let first = AuditRecord::chain(1, event(), AuditHash::genesis());
    first.verify(&genesis).unwrap();
    let second = AuditRecord::chain(
        2,
        event(),
        AuditHash::parse(first.hash().as_str().to_string()).unwrap(),
    );
    second.verify(first.hash()).unwrap();
    assert!(matches!(
        second.verify(&genesis),
        Err(AuditIntegrityError::PreviousHashMismatch { sequence: 2 })
    ));
    let forged = AuditRecord::from_stored(
        7,
        event(),
        AuditHash::genesis(),
        AuditHash::parse(first.hash().as_str().to_string()).unwrap(),
    );
    assert!(forged.verify(&genesis).is_err());
}

#[test]
fn audit_names_round_trip() {
    for kind in [
        AuditEventKind::AuthenticationAccepted,
        AuditEventKind::RunBudgetExhausted,
        AuditEventKind::ApprovalConsumed,
    ] {
        assert_eq!(AuditEventKind::parse(kind.as_str()), Ok(kind));
    }
    assert!(matches!(
        AuditEventKind::parse("nothing"),
        Err(AuditValueError::UnknownEventKind(_))
    ));
    assert_eq!(
        AuditOutcome::parse(AuditOutcome::Denied.as_str()),
        Ok(AuditOutcome::Denied)
    );
    assert!(AuditHash::parse("XYZ".to_string()).is_err());
}

fn route(
    id: &str,
    class: EndpointClass,
    own: Vec<DataClass>,
    workspace: Option<Vec<DataClass>>,
    priority: u32,
) -> ProviderRoute {
    ProviderRoute::new(
        ProviderId::parse(id.to_string()).unwrap(),
        class,
        true,
        own,
        workspace,
        priority,
    )
    .unwrap()
}

#[test]
fn routes_prefer_local_and_priority() {
    let all = vec![DataClass::Public, DataClass::Workspace];
    let routes = vec![
        route("far", EndpointClass::Remote, all.clone(), Some(all.clone()), 0),
        route("near", EndpointClass::Local, all.clone(), None, 9),
        route("nearer", EndpointClass::Local, all.clone(), None, 3),
    ];
    let d = select_model_provider(DataClass::Workspace, &routes).unwrap();
    assert_eq!(d.provider().as_str(), "nearer");
    assert!(!d.egress_occurred());
}

#[test]
fn remote_routes_need_both_lists() {
    let public = vec![DataClass::Public];
    let both = vec![DataClass::Public, DataClass::Workspace];
    let routes = vec![route(
        "far",
        EndpointClass::Remote,
        both,
        Some(public),
        0,
    )];
    let d = select_model_provider(DataClass::Public, &routes).unwrap();
    assert!(d.egress_occurred());
    assert!(matches!(
        select_model_provider(DataClass::Workspace, &routes),
        Err(RoutingFailure::RemoteEgressDenied)
    ));
    assert!(matches!(
        select_model_provider(DataClass::Secret, &routes),
        Err(RoutingFailure::SecretDataClass)
    ));
    assert!(matches!(
        select_model_provider(DataClass::Public, &vec![]),
        Err(RoutingFailure::NoEligibleProvider)
    ));
}

#[test]
fn destinations_are_origins() {
    let d = DestinationScope::parse("https://API.example.com:443/").unwrap();
    assert_eq!(d.as_str(), "https://api.example.com/");
    assert!(matches!(
        DestinationScope::parse("no url"),
        Err(EgressError::InvalidDestination)
    ));
    assert!(DestinationScope::parse("https://user@example.com/").is_err());
}

#[test]
fn schedules_find_the_next_run() {
    let at = TimestampMillis::new;
    let once = ScheduleSpec::once(at(100));
    assert_eq!(once.next_after(at(99), true), Some(at(100)));
    assert_eq!(once.next_after(at(100), true), None);
    assert_eq!(once.next_after(at(1), false), None);
    let every = ScheduleSpec::interval(at(100), 60_000).unwrap();
    assert_eq!(every.next_after(at(1), true), Some(at(100)));
    assert_eq!(every.next_after(at(100), true), Some(at(60_100)));
    assert_eq!(every.next_after(at(60_099), true), Some(at(60_100)));
    assert!(matches!(
        ScheduleSpec::interval(at(1), 0),
        Err(AutomationError::InvalidInterval)
    ));
}

#[test]
fn occurrence_keys_tell_runs_apart() {
    let key = |revision: u64, at: u64| {
        OccurrenceKey::new(
            JobId::from_uuid(1),
            JobRevision::new(revision).unwrap(),
            TimestampMillis::new(at),
        )
    };
    assert_ne!(key(1, 11).as_str(), key(11, 1).as_str());
    assert_eq!(key(1, 11).as_str(), key(1, 11).as_str());
    assert!(JobRevision::new(0).is_err());
}

#[test]
fn skill_versions_are_canonical() {
    assert_eq!(
        SkillVersion::parse("1.2.3".to_string()).unwrap().as_str(),
        "1.2.3"
    );
    assert!(matches!(
        SkillVersion::parse("1.2".to_string()),
        Err(AutomationError::InvalidSkillVersion)
    ));
    assert!(SkillVersion::parse("01.2.3".to_string()).is_err());
}

#[test]
fn policies_and_routes_are_compared_as_sets() {
    let up = vec![DataClass::Public, DataClass::Workspace];
    let down = vec![DataClass::Workspace, DataClass::Public, DataClass::Workspace];
    let policy = |v: Vec<DataClass>| {
        ProviderEgressPolicy::new(ProviderId::parse("p".to_string()).unwrap(), v).unwrap()
    };
    assert_eq!(policy(up.clone()), policy(down.clone()));
    assert_eq!(policy(up.clone()).clone(), policy(down.clone()));
    assert_ne!(policy(up.clone()), policy(vec![DataClass::Public]));
    let far = |own: &Vec<DataClass>, workspace: &Vec<DataClass>| {
        route("far", EndpointClass::Remote, own.clone(), Some(workspace.clone()), 0)
    };
    assert_eq!(far(&up, &down), far(&down, &up));
    assert_eq!(far(&up, &down).clone(), far(&up, &up));
    assert_ne!(far(&up, &down), far(&up, &vec![DataClass::Public]));
}
