//! Versions, addresses, keys and other plain values.

use ed25519_dalek::Signer;
use lumen_core::canonical::destination::NetworkDestination;
use lumen_core::canonical::host::HostPattern;
use lumen_core::canonical::resource::{AccountRef, ModelClass, SecretRef, ToolName};
use lumen_core::digest::sha256_hex;
use lumen_core::json::Json;
use lumen_core::keys::{sign_hex, verify_hex, SigningKey, VerifyingKey};
use lumen_core::ordered::{OrderedTable, TextSet};
use lumen_core::secret::SecretRefId;
use lumen_core::text::{eq_ignore_ascii_case, is_trimmed};
use lumen_core::url_parts::parse_url;
use lumen_core::version::{Version, VersionReq};

#[test]
fn versions_meet_requirements() {
    let caret = VersionReq::parse("^1.0").unwrap();
    assert_eq!(caret.as_str(), "^1.0");
    assert!(caret.matches(&Version::parse("1.9.0").unwrap()));
    assert!(!caret.matches(&Version::parse("2.0.0").unwrap()));
    assert!(Version::parse("1.0").is_none());
    assert!(VersionReq::parse("nonsense").is_none());
    let pin = Version::parse("1.2.3").unwrap().pin();
    assert_eq!(pin.as_str(), "=1.2.3");
    assert!(pin.matches(&Version::parse("1.2.3").unwrap()));
    assert!(!pin.matches(&Version::parse("1.2.4").unwrap()));
    assert!(!Version::read("x").unwrap_err().is_empty());
}

#[test]
fn keys_agree_with_the_reference() {
    let seed = [7u8; 32];
    let ours = SigningKey::from_bytes(seed);
    let theirs = ed25519_dalek::SigningKey::from_bytes(&seed);
    assert_eq!(
        ours.verifying_key().bytes,
        theirs.verifying_key().to_bytes()
    );
    let sig = ours.sign(b"message");
    assert_eq!(sig, theirs.sign(b"message").to_bytes().to_vec());
    let public = ours.verifying_key();
    assert!(public.verify(b"message", &sig));
    assert!(!public.verify(b"massage", &sig));
    assert!(!public.verify(b"message", &sig[..63]));
    let text = sign_hex(&ours, b"message");
    assert_eq!(text.len(), 128);
    assert!(verify_hex(&public, b"message", &text));
    assert!(verify_hex(&public, b"message", &text.to_uppercase()));
    assert!(!verify_hex(&public, b"message", "zz"));
    assert!(!VerifyingKey { bytes: [0xff; 32] }.verify(b"message", &sig));
    assert_ne!(
        SigningKey::generate().verifying_key(),
        SigningKey::generate().verifying_key()
    );
}

#[test]
fn identifiers_are_random_uuids() {
    let a = SecretRefId::new();
    assert_ne!(a, SecretRefId::new());
    let text = a.to_text();
    assert_eq!(text.len(), 36);
    assert_eq!(&text[14..15], "4");
    assert_eq!(
        SecretRefId::from_uuid(0x550e8400_e29b_41d4_a716_446655440000).to_text(),
        "550e8400-e29b-41d4-a716-446655440000"
    );
}

#[test]
fn json_has_two_texts() {
    let v = Json::Object(vec![
        ("b".to_string(), Json::Number("1.5".to_string())),
        (
            "a".to_string(),
            Json::Array(vec![Json::Null, Json::Bool(true), Json::UInt(u64::MAX)]),
        ),
    ]);
    assert_eq!(
        v.to_text(),
        r#"{"b":1.5,"a":[null,true,18446744073709551615]}"#
    );
    assert!(v.canonical_text().is_err());
    assert!(!v.all_numbers_integral());
    let sorted = Json::Object(vec![
        ("b".to_string(), Json::Int(-5)),
        ("a".to_string(), Json::Str("\u{e9}\u{7}".to_string())),
    ]);
    assert_eq!(
        sorted.canonical_text().unwrap(),
        "{\"a\":\"\u{e9}\\u0007\",\"b\":-5}"
    );
}

#[test]
fn urls_are_read_in_parts() {
    let u = parse_url("HTTPS://User:pw@Example.com:443/a/../b?q#f").unwrap();
    assert_eq!(u.text, "https://User:pw@example.com/b?q#f");
    assert_eq!(u.scheme, "https");
    assert_eq!(u.username, "User");
    assert!(u.has_password && u.has_query && u.has_fragment);
    assert_eq!(u.port, Some(443));
    assert_eq!(u.path, "/b");
    assert!(parse_url("no url").is_err());
    assert!(parse_url("data:text").unwrap().host.is_none());
}

#[test]
fn ranges_have_a_canonical_text() {
    assert_eq!(
        HostPattern::parse("10.1.2.3/8").unwrap().canonical_form(),
        "iprange:10.1.2.3/8"
    );
    assert!(HostPattern::parse("2001:db8:0::/32")
        .unwrap()
        .canonical_form()
        .ends_with("2001:db8::/32"));
    assert!(HostPattern::parse("2001:DB8::1")
        .unwrap()
        .canonical_form()
        .ends_with("2001:db8::1"));
    assert_eq!(
        HostPattern::parse("EXAMPLE.com.").unwrap(),
        HostPattern::parse("example.com").unwrap()
    );
}

#[test]
fn methods_are_upper_cased() {
    let d = NetworkDestination::parse("https://example.com/", &vec!["get".to_string()]).unwrap();
    assert_eq!(d.methods, vec!["GET".to_string()]);
    assert_eq!(
        d.canonical_form(),
        "net:https://dns:example.com:ports:443:GET"
    );
}

#[test]
fn references_are_checked() {
    assert!(ToolName::parse("fs.read").is_ok());
    assert!(ToolName::parse("Fs Read").is_err());
    assert!(SecretRef::parse("").is_err());
    assert!(AccountRef::parse("github", "octo").is_ok());
    assert!(AccountRef::parse("", "octo").is_err());
    assert!(ModelClass::parse("openai", "").is_err());
    assert!(HostPattern::parse("").is_err());
}

#[test]
fn tables_refuse_a_repeated_key() {
    let entries = |keys: &[&str]| -> Vec<(String, String)> {
        keys.iter()
            .map(|k| (k.to_string(), k.to_uppercase()))
            .collect()
    };
    let t = OrderedTable::from_unique(entries(&["b", "a", "c"])).unwrap();
    assert_eq!(t.key_at(0), "a");
    assert_eq!(t.get("b"), Some(&"B".to_string()));
    assert_eq!(t.get("d"), None);
    assert!(OrderedTable::from_unique(entries(&["b", "a", "b"])).is_none());
}

#[test]
fn sets_are_ordered_and_without_repetition() {
    let s = TextSet::from_list(vec!["b".into(), "a".into(), "b".into()]);
    assert_eq!(s.to_vec(), vec!["a".to_string(), "b".to_string()]);
    assert!(s.is_subset(&TextSet::from_list(vec!["a".into(), "b".into(), "c".into()])));
}

#[test]
fn text_is_compared_with_care() {
    assert!(eq_ignore_ascii_case("LocalHost", "localhost"));
    assert!(!eq_ignore_ascii_case("\u{c9}", "\u{e9}"));
    assert!(is_trimmed("a b"));
    assert!(!is_trimmed("a\u{2003}"));
    assert_eq!(sha256_hex(b"")[..8], *"e3b0c442");
}
