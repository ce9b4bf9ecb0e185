//! Canonical hosts, ports, destinations and tools.

use lumen_core::canonical::destination::NetworkDestination;
use lumen_core::canonical::host::HostPattern;
use lumen_core::canonical::ports::PortSet;
use lumen_core::canonical::resource::{ToolGrant, ToolName};
use lumen_core::canonical::CanonicalError;
use lumen_core::ip::{IpAddress, NetworkClass};
use lumen_core::version::VersionReq;

#[test]
fn port_subset() {
    assert!(PortSet::single(443).is_subset_of(&PortSet::range(1, 1024).unwrap()));
    assert!(!PortSet::single(8080).is_subset_of(&PortSet::range(1, 1024).unwrap()));
    assert!(PortSet::any().is_subset_of(&PortSet::any()));
    assert!(!PortSet::any().is_subset_of(&PortSet::range(1, 1024).unwrap()));
    assert!(PortSet::single(80).is_subset_of(&PortSet::any()));
}

#[test]
fn dns_wildcard_rules() {
    // `*.example.com` covers subdomains but not the apex.
    let parent = HostPattern::parse("*.example.com").unwrap();
    assert!(
        HostPattern::parse("api.example.com")
            .unwrap()
            .is_subset_of(&parent)
            .is_ok()
    );
    assert!(
        HostPattern::parse("example.com")
            .unwrap()
            .is_subset_of(&parent)
            .is_err()
    );
    // Strict single-label semantics: `*.example.com` does not cover
    // deeper nesting or narrower wildcards.
    assert!(
        HostPattern::parse("a.b.example.com")
            .unwrap()
            .is_subset_of(&parent)
            .is_err()
    );
    assert!(
        HostPattern::parse("*.sub.example.com")
            .unwrap()
            .is_subset_of(&parent)
            .is_err()
    );
    assert!(
        HostPattern::parse("*.example.com")
            .unwrap()
            .is_subset_of(&parent)
            .is_ok()
    );
    // Ambiguous wildcards rejected.
    assert!(HostPattern::parse("*").is_err());
    assert!(HostPattern::parse("*.com").is_err());
    assert!(HostPattern::parse("*.*").is_err());
    assert!(HostPattern::parse("*.example.*").is_err());
}

#[test]
fn dns_and_ip_never_mix() {
    let dns = HostPattern::parse("example.com").unwrap();
    let range = HostPattern::parse("93.184.216.0/24").unwrap();
    assert!(matches!(
        dns.is_subset_of(&range),
        Err(CanonicalError::DnsIpMix)
    ));
    assert!(matches!(
        range.is_subset_of(&dns),
        Err(CanonicalError::DnsIpMix)
    ));
}

#[test]
fn ip_range_containment() {
    let parent = HostPattern::parse("10.0.0.0/8").unwrap();
    assert!(
        HostPattern::parse("10.1.2.3")
            .unwrap()
            .is_subset_of(&parent)
            .is_ok()
    );
    assert!(
        HostPattern::parse("10.0.0.0/16")
            .unwrap()
            .is_subset_of(&parent)
            .is_ok()
    );
    assert!(
        HostPattern::parse("11.0.0.1")
            .unwrap()
            .is_subset_of(&parent)
            .is_err()
    );
    // A wider child range is not a subset of a narrower parent.
    let narrow = HostPattern::parse("10.0.0.0/16").unwrap();
    assert!(
        HostPattern::parse("10.0.0.0/8")
            .unwrap()
            .is_subset_of(&narrow)
            .is_err()
    );
}

#[test]
fn default_port_normalization() {
    let a = NetworkDestination::parse("https://example.com/x", &vec![]).unwrap();
    let b = NetworkDestination::parse("https://example.com:443/x", &vec![]).unwrap();
    assert_eq!(a.canonical_form(), b.canonical_form());
    let c = NetworkDestination::parse("https://example.com:8443/x", &vec![]).unwrap();
    assert_ne!(a.canonical_form(), c.canonical_form());
}

#[test]
fn tool_pin_subset() {
    let parent = ToolGrant {
        name: ToolName::parse("fs.read").unwrap(),
        allowed: VersionReq::parse("^1.0").unwrap(),
    };
    let child = ToolGrant {
        name: ToolName::parse("fs.read").unwrap(),
        allowed: VersionReq::parse("=1.2.3").unwrap(),
    };
    assert!(child.is_subset_of(&parent).is_ok());
    let bad = ToolGrant {
        name: ToolName::parse("fs.read").unwrap(),
        allowed: VersionReq::parse("=2.0.0").unwrap(),
    };
    assert!(bad.is_subset_of(&parent).is_err());
    // Non-pinned child fails closed.
    let float = ToolGrant {
        name: ToolName::parse("fs.read").unwrap(),
        allowed: VersionReq::parse("^1.2").unwrap(),
    };
    assert!(float.is_subset_of(&parent).is_err());
}

#[test]
fn network_class_private() {
    assert_eq!(
        HostPattern::parse("10.1.2.3").unwrap().network_class(),
        NetworkClass::Private
    );
    assert_eq!(
        HostPattern::parse("8.8.8.8").unwrap().network_class(),
        NetworkClass::Public
    );
    assert_eq!(
        HostPattern::parse("127.0.0.1").unwrap().network_class(),
        NetworkClass::Loopback
    );
    assert_eq!(
        HostPattern::parse("example.com").unwrap().network_class(),
        NetworkClass::Dns
    );
}

#[test]
fn network_class_special_addresses_fail_closed() {
    // IPv4-mapped IPv6 unwraps to the embedded address.
    assert_eq!(
        HostPattern::parse("::ffff:10.0.0.1")
            .unwrap()
            .network_class(),
        NetworkClass::Private
    );
    assert_eq!(
        HostPattern::parse("::ffff:127.0.0.1")
            .unwrap()
            .network_class(),
        NetworkClass::Loopback
    );
    assert_eq!(
        HostPattern::parse("::ffff:8.8.8.8")
            .unwrap()
            .network_class(),
        NetworkClass::Public
    );
    // "This network" and limited broadcast are never Public.
    assert_eq!(
        HostPattern::parse("0.0.0.0").unwrap().network_class(),
        NetworkClass::Restricted
    );
    assert_eq!(
        HostPattern::parse("0.1.2.3").unwrap().network_class(),
        NetworkClass::Restricted
    );
    assert_eq!(
        HostPattern::parse("255.255.255.255")
            .unwrap()
            .network_class(),
        NetworkClass::Restricted
    );
    // Shared (CGNAT) space is not publicly routable.
    assert_eq!(
        HostPattern::parse("100.64.0.1").unwrap().network_class(),
        NetworkClass::Private
    );
    assert_eq!(
        HostPattern::parse("100.127.255.255")
            .unwrap()
            .network_class(),
        NetworkClass::Private
    );
    // Reserved and documentation ranges.
    assert_eq!(
        HostPattern::parse("240.0.0.1").unwrap().network_class(),
        NetworkClass::Restricted
    );
    assert_eq!(
        HostPattern::parse("192.0.2.1").unwrap().network_class(),
        NetworkClass::Restricted
    );
    assert_eq!(
        HostPattern::parse("::").unwrap().network_class(),
        NetworkClass::Restricted
    );
    // Unchanged: genuine public and v6 special addresses.
    assert_eq!(
        HostPattern::parse("::1").unwrap().network_class(),
        NetworkClass::Loopback
    );
    assert_eq!(
        HostPattern::parse("fe80::1").unwrap().network_class(),
        NetworkClass::LinkLocal
    );
    assert_eq!(
        HostPattern::parse("ff02::1").unwrap().network_class(),
        NetworkClass::Multicast
    );
    assert_eq!(
        HostPattern::parse("fd00::1").unwrap().network_class(),
        NetworkClass::Private
    );
    assert_eq!(
        HostPattern::parse("2001:db8::1").unwrap().network_class(),
        NetworkClass::Restricted
    );
    assert_eq!(
        HostPattern::parse("2001:4860:4860::8888")
            .unwrap()
            .network_class(),
        NetworkClass::Public
    );
}

#[test]
fn network_class_range_uses_least_trusted_address() {
    // A range spanning restricted addresses is never Public.
    assert_eq!(
        HostPattern::parse("0.0.0.0/0").unwrap().network_class(),
        NetworkClass::Loopback
    );
    assert_eq!(
        HostPattern::parse("::/0").unwrap().network_class(),
        NetworkClass::Loopback
    );
    assert_eq!(
        HostPattern::parse("0.0.0.0/8").unwrap().network_class(),
        NetworkClass::Restricted
    );
    assert_eq!(
        HostPattern::parse("127.0.0.0/8").unwrap().network_class(),
        NetworkClass::Loopback
    );
    assert_eq!(
        HostPattern::parse("10.0.0.0/8").unwrap().network_class(),
        NetworkClass::Private
    );
    // IPv4-mapped IPv6 ranges unwrap: ::ffff:10.0.0.0/104 is 10/8.
    assert_eq!(
        HostPattern::parse("::ffff:10.0.0.0/104")
            .unwrap()
            .network_class(),
        NetworkClass::Private
    );
    assert_eq!(
        HostPattern::parse("::ffff:0.0.0.0/96")
            .unwrap()
            .network_class(),
        NetworkClass::Loopback
    );
    // Genuinely public ranges stay Public.
    assert_eq!(
        HostPattern::parse("93.184.216.0/24")
            .unwrap()
            .network_class(),
        NetworkClass::Public
    );
    assert_eq!(
        HostPattern::parse("2001:4860::/32")
            .unwrap()
            .network_class(),
        NetworkClass::Public
    );
    // Documentation ranges are Restricted even as ranges.
    assert_eq!(
        HostPattern::parse("2001:db8::/32").unwrap().network_class(),
        NetworkClass::Restricted
    );
}

#[test]
fn ipv6_destination_parses_as_ip_not_dns() {
    // Regression: Url::host_str() keeps the brackets, which used to
    // fall through to a DnsName("[::1]") and hide loopback/private
    // literals from network_class() and the subset proof.
    let loopback = NetworkDestination::parse("https://[::1]:443/x", &vec![]).unwrap();
    assert_eq!(loopback.host, HostPattern::Ip(IpAddress::V6(1)));
    assert_eq!(loopback.host.network_class(), NetworkClass::Loopback);

    let ula = NetworkDestination::parse("https://[fd00::1]/", &vec![]).unwrap();
    assert_eq!(ula.host.network_class(), NetworkClass::Private);

    // An IpRange grant covers the IPv6 action (no DnsIpMix).
    let grant = NetworkDestination {
        scheme: "https".to_string(),
        host: HostPattern::parse("fd00::/8").unwrap(),
        ports: PortSet::single(443),
        methods: Vec::new(),
    };
    assert!(ula.is_subset_of(&grant).is_ok());
    assert!(loopback.is_subset_of(&grant).is_err());

    let v4 = NetworkDestination::parse("https://93.184.216.34:8443/", &vec![]).unwrap();
    assert_eq!(v4.host, HostPattern::Ip(IpAddress::V4(0x5db8_d822)));
}

#[test]
fn method_subset_treats_empty_as_unrestricted() {
    let dest = |methods: &[&str]| {
        let methods: Vec<String> = methods.iter().map(|m| m.to_string()).collect();
        NetworkDestination::parse("https://example.com/", &methods).unwrap()
    };
    let unrestricted = dest(&[]);
    let get_only = dest(&["GET"]);
    let get_post = dest(&["GET", "POST"]);

    // Unrestricted child: only an unrestricted parent covers it.
    assert!(unrestricted.is_subset_of(&dest(&[])).is_ok());
    assert!(unrestricted.is_subset_of(&get_only).is_err());
    // Restricted child: covered by unrestricted or wider parents.
    assert!(get_only.is_subset_of(&dest(&[])).is_ok());
    assert!(get_only.is_subset_of(&get_only).is_ok());
    assert!(get_only.is_subset_of(&get_post).is_ok());
    assert!(get_post.is_subset_of(&get_only).is_err());
    // Methods are ignored for non-HTTP schemes.
    let dns_child = NetworkDestination::parse("dns://example.com:53/", &vec![]).unwrap();
    let mut dns_parent = dns_child.clone();
    dns_parent.methods.push("GET".to_string());
    assert!(dns_child.is_subset_of(&dns_parent).is_ok());
}

/// The canonical destination decoder is the exact inverse of the
/// encoder: every host kind, port shape, and method allowlist
/// round-trips, and the re-encoded form is byte-identical.
#[test]
fn canonical_destination_round_trip() {
    let cases = [
        // (scheme, host, ports, methods)
        (
            "https",
            HostPattern::DnsName("example.com".to_string()),
            PortSet::single(443),
            vec![],
        ),
        (
            "https",
            HostPattern::DnsWildcard("example.com".to_string()),
            PortSet::from_ports(&vec![80, 443]),
            vec![],
        ),
        (
            "ssh",
            HostPattern::Ip(IpAddress::V4(0x0a00_0007)),
            PortSet::single(22),
            vec![],
        ),
        (
            "https",
            HostPattern::Ip(IpAddress::V6(1)),
            PortSet::single(443),
            vec![],
        ),
        (
            "https",
            HostPattern::parse("10.0.0.0/8").unwrap(),
            PortSet::range(8000, 9000).unwrap(),
            vec![],
        ),
        (
            "wss",
            HostPattern::parse("2001:db8::/32").unwrap(),
            PortSet::any(),
            vec![],
        ),
        (
            "https",
            HostPattern::DnsName("api.example.com".to_string()),
            PortSet::from_ports(&vec![443, 8443]),
            vec!["GET".to_string(), "POST".to_string()],
        ),
    ];
    for (scheme, host, ports, methods) in cases {
        let given = NetworkDestination {
            scheme: scheme.to_string(),
            host,
            ports,
            methods,
        };
        let encoded = given.canonical_form();
        assert!(
            encoded.starts_with("net:"),
            "encoder must emit net: form, got {encoded}"
        );
        let decoded = NetworkDestination::parse_canonical_form(&encoded)
            .unwrap_or_else(|e| panic!("decode failed for {encoded}: {e:?}"));
        assert_eq!(decoded, given, "round-trip mismatch for {encoded}");
        assert_eq!(
            decoded.canonical_form(),
            encoded,
            "re-encode must be byte-identical"
        );
    }
}

/// Malformed canonical destinations fail closed — the decoder never
/// invents authority from garbage.
#[test]
fn canonical_destination_decode_rejects_malformed() {
    let bad = [
        "",
        "https://example.com:443",
        "net:https://example.com:443", // host not in canonical form
        "net://dns:example.com:ports:443", // empty scheme
        "net:HTTPS://dns:example.com:ports:443", // non-canonical scheme case
        "net:https://dns::ports:443",  // empty host value
        "net:https://dns:1.2.3.4:ports:443", // kind tag disagrees with value
        "net:https://ip:example.com:ports:443",
        "net:https://dnswild:example.com:ports:443", // wildcard missing *.
        "net:https://iprange:not-a-net:ports:443",
        "net:https://dns:example.com:ports:", // empty ports
        "net:https://dns:example.com:ports:abc",
        "net:https://dns:example.com:ports:9000-80", // inverted range
        "net:https://dns:example.com:ports:443:",
        "net:https://dns:example.com:ports:443:get", // non-canonical method case
        "net:https://dns:example.com:ports:443:GET,",
        "net:ftp://dns:example.com:ports:21:RETR", // methods on non-HTTP scheme
        "net:https://dns:example.com",             // missing ports
        "net:https://dns:example.com:ports:443:GET:extra",
    ];
    for input in bad {
        assert!(
            NetworkDestination::parse_canonical_form(input).is_err(),
            "must reject {input:?}"
        );
    }
}

#[test]
fn wildcards_of_one_label_are_decoded() {
    let text = "net:https://dnswild:*.com:ports:443";
    let d = NetworkDestination::parse_canonical_form(text).unwrap();
    assert_eq!(d.host, HostPattern::DnsWildcard("com".to_string()));
    assert_eq!(d.canonical_form(), text);
}

#[test]
fn names_with_a_decoded_star_are_not_read_back() {
    // The URL parser decodes the host, and a star in the result is no longer
    // taken for a part of a name.
    let host = HostPattern::parse("a%2Ab.example").unwrap();
    assert_eq!(host, HostPattern::DnsName("a*b.example".to_string()));
    assert!(host.validate().is_err());
    assert_eq!(
        HostPattern::parse("a.example.."),
        Ok(HostPattern::DnsName("a.example.".to_string()))
    );
    let d = NetworkDestination {
        scheme: "https".to_string(),
        host,
        ports: PortSet::single(443),
        methods: vec![],
    };
    assert!(!d.comes_back());
    assert!(NetworkDestination::parse_canonical_form(&d.canonical_form()).is_err());
}

#[test]
fn addresses_and_wildcards_come_back() {
    for text in [
        "127.0.0.1",
        "255.255.255.255",
        "::",
        "::1",
        "2001:db8::1:0:0:1",
        "::ffff:10.0.0.1",
        "fe80::1:2:3:4",
        "10.0.0.0/8",
        "0.0.0.0/0",
        "2001:db8::/32",
        "::/0",
        "*.example.com",
        "example.com",
        "xn--bcher-kva.example",
    ] {
        let d = NetworkDestination {
            scheme: "https".to_string(),
            host: HostPattern::parse(text).unwrap(),
            ports: PortSet::single(443),
            methods: vec![],
        };
        assert!(d.comes_back(), "{text}");
        assert_eq!(
            NetworkDestination::parse_canonical_form(&d.canonical_form()).unwrap(),
            d,
            "{text}"
        );
    }
}

#[test]
fn what_is_canonical_comes_back() {
    let mut d = NetworkDestination {
        scheme: "https".to_string(),
        host: HostPattern::parse("API.example.com").unwrap(),
        ports: PortSet::single(443),
        methods: vec!["GET".to_string(), "POST".to_string()],
    };
    d.validate().unwrap();
    assert_eq!(
        NetworkDestination::parse_canonical_form(&d.canonical_form()).unwrap(),
        d
    );
    d.host = HostPattern::DnsName("API.example.com".to_string());
    assert!(d.validate().is_err());
}
