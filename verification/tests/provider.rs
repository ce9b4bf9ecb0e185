//! Providers, their model profiles and how both are bound.

use lumen_core::egress::ProviderId;
use lumen_core::provider::{
    validate_binding, LocalRuntimeKind, ModelCapabilities, ModelCapability, ModelProfile,
    ModelProfileId, ModelTrustZone, ProviderConfig, ProviderConfigError, ProviderErrorKind,
    ProviderKind,
};
use lumen_core::secret::SecretRefId;

fn id(value: &str) -> ProviderId {
    ProviderId::parse(value.to_string()).unwrap()
}

fn profile(provider: &ProviderConfig, revision: u64) -> ModelProfile {
    ModelProfile::new(
        ModelProfileId::parse("coder".to_string()).unwrap(),
        1,
        id(provider.id().as_str()),
        revision,
        "model".to_string(),
        true,
        ModelCapabilities::new(vec![ModelCapability::Text]),
        32_000,
        ModelTrustZone::RemoteApproved,
        2,
        0,
    )
    .unwrap()
}

#[test]
fn validates_remote_local_and_profile() {
    let provider = ProviderConfig::remote(
        id("openai"),
        1,
        ProviderKind::OpenAi,
        "https://api.openai.com/v1/",
        true,
        SecretRefId::new(),
    )
    .unwrap();
    for runtime in [
        LocalRuntimeKind::Ollama,
        LocalRuntimeKind::LlamaCpp,
        LocalRuntimeKind::Vllm,
    ] {
        assert!(ProviderConfig::local_openai_compatible(
            id(runtime.as_str()),
            1,
            "http://127.0.0.1:8080/v1/",
            runtime,
            true,
            None
        )
        .is_ok());
    }
    let profile = profile(&provider, 1);
    assert!(validate_binding(&provider, &profile).is_ok());
}

#[test]
fn endpoints_are_refused_by_kind() {
    let remote = |endpoint: &str| {
        ProviderConfig::remote(
            id("openai"),
            1,
            ProviderKind::OpenAi,
            endpoint,
            true,
            SecretRefId::new(),
        )
    };
    let local = |endpoint: &str| {
        ProviderConfig::local_openai_compatible(
            id("local"),
            1,
            endpoint,
            LocalRuntimeKind::Ollama,
            true,
            None,
        )
    };
    assert!(matches!(
        remote("http://api.openai.com/v1/"),
        Err(ProviderConfigError::RemoteMustUseHttps)
    ));
    assert!(matches!(
        remote("https://user:pw@api.openai.com/v1/"),
        Err(ProviderConfigError::InvalidEndpoint)
    ));
    assert!(matches!(
        remote("no url"),
        Err(ProviderConfigError::InvalidUrl(_))
    ));
    assert!(matches!(
        local("http://192.168.0.1/v1/"),
        Err(ProviderConfigError::LocalMustBeLoopback)
    ));
    assert!(local("http://[::1]:8080/v1/").is_ok());
    assert!(local("http://localhost:8080/v1/").is_ok());
    assert_eq!(
        remote("https://API.openai.com:443/v1/").unwrap().endpoint(),
        "https://api.openai.com/v1/"
    );
}

#[test]
fn a_profile_of_another_revision_is_not_bound() {
    let provider = ProviderConfig::remote(
        id("openai"),
        1,
        ProviderKind::OpenAi,
        "https://api.openai.com/v1/",
        true,
        SecretRefId::new(),
    )
    .unwrap();
    let e = validate_binding(&provider, &profile(&provider, 2)).unwrap_err();
    assert_eq!(e.kind, ProviderErrorKind::Configuration);
}

#[test]
fn profiles_need_text_and_limits() {
    let make = |name: &str, caps: Vec<ModelCapability>, window: u32| {
        ModelProfile::new(
            ModelProfileId::parse("coder".to_string()).unwrap(),
            1,
            id("openai"),
            1,
            name.to_string(),
            true,
            ModelCapabilities::new(caps),
            window,
            ModelTrustZone::RemoteApproved,
            2,
            0,
        )
    };
    assert!(matches!(
        make("m", vec![ModelCapability::Vision], 1),
        Err(ProviderConfigError::TextRequired)
    ));
    assert!(matches!(
        make("m", vec![ModelCapability::Text], 0),
        Err(ProviderConfigError::InvalidLimits)
    ));
    assert!(matches!(
        make("", vec![ModelCapability::Text], 1),
        Err(ProviderConfigError::InvalidModelName)
    ));
    assert!(ModelProfileId::parse("Not An Id".to_string()).is_err());
}

#[test]
fn capabilities_come_out_in_order_and_once() {
    let caps = ModelCapabilities::new(vec![
        ModelCapability::Vision,
        ModelCapability::Text,
        ModelCapability::Vision,
    ]);
    assert_eq!(
        caps.iter(),
        vec![ModelCapability::Text, ModelCapability::Vision]
    );
}

#[test]
fn long_endpoints_are_completed_too() {
    let long = format!("https://example.com/{}", "a".repeat(0x100_0000));
    let provider = ProviderConfig::remote(
        id("openai"),
        1,
        ProviderKind::OpenAi,
        &long,
        true,
        SecretRefId::new(),
    )
    .unwrap();
    assert_eq!(provider.endpoint().len(), long.len() + 1);
    assert!(provider.endpoint().starts_with(&long));
    assert!(provider.endpoint().ends_with('/'));
}

#[test]
fn capabilities_are_compared_as_sets() {
    let a = ModelCapabilities::new(vec![ModelCapability::Vision, ModelCapability::Text]);
    let b = ModelCapabilities::new(vec![
        ModelCapability::Text,
        ModelCapability::Vision,
        ModelCapability::Text,
    ]);
    assert_eq!(a, b);
    assert_eq!(a.clone(), b);
    assert_eq!(ModelCapabilities::new(vec![]), ModelCapabilities::default());
    assert_ne!(a, ModelCapabilities::default());
}
