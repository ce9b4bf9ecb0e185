//! Plugin manifests, invocation contracts and provenance.

use lumen_core::action::{ActionKind, CanonicalValue};
use lumen_core::capability::{Capability, CapabilityName, ResourceScope};
use lumen_core::extension::{
    canonical_grant_set_digest, ExtensionFailure, ExtensionFailureClass, ExtensionIdentityError,
    ExtensionInvocationLimits, ExtensionProvenance, ExtensionResponse, IntegrityAlgorithm,
    InvocationContractError, ManifestError, ManifestPath, PluginComponentId, PluginComponentKind,
    PluginComponentManifest, PluginId, PluginIntegrityManifest, PluginManifest, PluginRuntime,
    PluginRuntimeManifest, PluginVersion, ProtocolVersion, Sha256Digest,
};
use lumen_core::identity::WorkspaceId;

fn digest(c: &str) -> Sha256Digest {
    Sha256Digest::parse(c.repeat(64)).unwrap()
}

fn path(value: &str) -> ManifestPath {
    ManifestPath::parse(value.to_string()).unwrap()
}

fn component(id: &str) -> PluginComponentManifest {
    PluginComponentManifest::new(
        PluginComponentId::parse(id.to_string()).unwrap(),
        PluginComponentKind::Tool,
        "reads".to_string(),
        path("schema/in.json"),
        path("schema/out.json"),
        vec![ActionKind::new("fs.read".to_string()).unwrap()],
        vec![],
    )
}

fn manifest(
    version: u16,
    components: Vec<PluginComponentManifest>,
) -> Result<PluginManifest, ManifestError> {
    PluginManifest::new(
        version,
        PluginId::parse("dev.example.reader".to_string()).unwrap(),
        "Reader".to_string(),
        PluginVersion::parse("1.0.0".to_string()).unwrap(),
        "Reads files".to_string(),
        PluginRuntimeManifest::new(
            PluginRuntime::WasmComponent,
            path("plugin.wasm"),
            ProtocolVersion::new(1).unwrap(),
        ),
        components,
        None,
        PluginIntegrityManifest::new(IntegrityAlgorithm::Sha256, digest("a")),
    )
}

#[test]
fn manifests_are_checked() {
    let m = manifest(1, vec![component("reader"), component("writer")]).unwrap();
    assert_eq!(m.components().len(), 2);
    assert!(matches!(
        manifest(9, vec![component("reader")]),
        Err(ManifestError::UnsupportedVersion)
    ));
    assert!(matches!(
        manifest(1, vec![]),
        Err(ManifestError::InvalidComponentCount)
    ));
    assert!(matches!(
        manifest(1, vec![component("reader"), component("reader")]),
        Err(ManifestError::DuplicateComponent)
    ));
    for bad in ["", "/abs", "a/../b", "a\\b"] {
        assert!(
            matches!(
                ManifestPath::parse(bad.to_string()),
                Err(ManifestError::InvalidPath)
            ),
            "{bad}"
        );
    }
}

#[test]
fn identities_are_checked() {
    assert!(matches!(
        PluginId::parse("".to_string()),
        Err(ExtensionIdentityError::InvalidPluginId)
    ));
    assert!(matches!(
        PluginVersion::parse("1".to_string()),
        Err(ExtensionIdentityError::InvalidVersion)
    ));
    assert!(matches!(
        Sha256Digest::parse("A".repeat(64)),
        Err(ExtensionIdentityError::InvalidDigest)
    ));
    assert!(matches!(
        ProtocolVersion::new(0),
        Err(ExtensionIdentityError::InvalidProtocolVersion)
    ));
}

#[test]
fn limits_and_failures_are_checked() {
    assert!(matches!(
        ExtensionInvocationLimits::new(0, 1, 1, 1),
        Err(InvocationContractError::InvalidLimits)
    ));
    assert!(matches!(
        ExtensionFailure::new(ExtensionFailureClass::PluginFault, "".to_string()),
        Err(InvocationContractError::InvalidFailure)
    ));
    assert!(ExtensionFailureClass::PluginFault.counts_toward_health());
    assert!(!ExtensionFailureClass::PolicyDenied.counts_toward_health());
    assert!(matches!(
        ExtensionResponse::result(CanonicalValue::Null),
        ExtensionResponse::Result { .. }
    ));
}

#[test]
fn grants_have_one_digest() {
    let read = Capability::new(
        CapabilityName::FsRead,
        ResourceScope::workspace(WorkspaceId::from_uuid(1)),
    );
    let write = Capability::new(
        CapabilityName::FsWrite,
        ResourceScope::workspace(WorkspaceId::from_uuid(1)),
    );
    let a = canonical_grant_set_digest(&[read.clone(), write.clone()]);
    let b = canonical_grant_set_digest(&[write, read.clone(), read.clone()]);
    assert_eq!(a.as_str(), b.as_str());
    assert_ne!(a.as_str(), canonical_grant_set_digest(&[read]).as_str());
}

#[test]
fn resource_keys_tell_plugins_apart() {
    let make = |id: &str, component: &str| {
        ExtensionProvenance::new(
            PluginId::parse(id.to_string()).unwrap(),
            PluginVersion::parse("1.0.0".to_string()).unwrap(),
            PluginComponentId::parse(component.to_string()).unwrap(),
            PluginRuntime::Subprocess,
            digest("a"),
            digest("b"),
            digest("c"),
            digest("d"),
            digest("e"),
            ProtocolVersion::new(1).unwrap(),
            None,
        )
    };
    let a = make("dev.example.reader", "reader");
    assert_ne!(
        a.resource_key(),
        make("dev.example.reader", "writer").resource_key()
    );
    let b = make("dev.example.reader", "reader").with_settings_digest(digest("f"));
    assert_eq!(b.settings_digest().as_str(), "f".repeat(64));
}
