use vetto::backend::NetMode;
use vetto::linux::net_relay::{IpAddress, NetRule};
use vetto::macos::net_proxy::{
    host_matches, is_restricted_v4, is_restricted_v6, normalize_host, tls_mode,
    validate_public_addr, BrokerPolicy, HostError, ProxyError,
};

fn v6(s: [u16; 8]) -> [u8; 16] {
    let mut o = [0u8; 16];
    for (i, g) in s.iter().enumerate() {
        o[2 * i] = (g >> 8) as u8;
        o[2 * i + 1] = *g as u8;
    }
    o
}

#[test]
fn private_metadata_and_nat64_are_rejected() {
    for address in [
        IpAddress::V4([10, 0, 0, 1]),
        IpAddress::V4([169, 254, 169, 254]),
        IpAddress::V6(v6([0xfd00, 0, 0, 0, 0, 0, 0, 1])),
        IpAddress::V6(v6([0x64, 0xff9b, 0, 0, 0, 0, 0xc000, 0x0201])),
    ] {
        assert!(validate_public_addr(address).is_err(), "{address:?}");
    }
    assert_eq!(validate_public_addr(IpAddress::V4([93, 184, 216, 34])), Ok(()));
    assert!(is_restricted_v6(v6([0, 0, 0, 0, 0, 0xffff, 0x0a00, 0x0001])));
    assert!(!is_restricted_v6(v6([0x2606, 0x2800, 0x220, 1, 0x248, 0x1893, 0x25c8, 0x1946])));
    assert!(is_restricted_v4([100, 64, 0, 1]));
    assert!(!is_restricted_v4([100, 128, 0, 1]));
    assert!(is_restricted_v4([255, 255, 255, 255]));
}

#[test]
fn policy_pins_the_supplied_socket_address() {
    let policy = BrokerPolicy::new(
        NetMode::Strict(vec![NetRule { domain: "example.com".into(), port: 443 }]),
        (IpAddress::V4([127, 0, 0, 1]), 0),
    )
    .unwrap();
    let addr = (IpAddress::V4([93, 184, 216, 34]), 443);
    let pinned = policy.authorize("example.com", false, 443, addr).unwrap();
    assert_eq!(pinned.addr(), addr);
    assert_eq!(pinned.host(), "example.com");
    assert_eq!(tls_mode(), "TLS pass-through only; no certificate interception or MITM");
    assert_eq!(policy.authorize("example.com", false, 80, (IpAddress::V4([93, 184, 216, 34]), 80)).err(),
        Some(ProxyError::NotInStrictPolicy));
    assert_eq!(policy.authorize("example.com", false, 443, (IpAddress::V4([93, 184, 216, 34]), 80)).err(),
        Some(ProxyError::PortMismatch));
    assert_eq!(pinned.connect_check(false), Ok(()));
}

#[test]
fn broker_must_listen_on_loopback_and_not_for_net_off() {
    assert_eq!(
        BrokerPolicy::new(NetMode::Ask, (IpAddress::V4([0, 0, 0, 0]), 0)).err(),
        Some(ProxyError::NonLoopbackBind)
    );
    assert_eq!(
        BrokerPolicy::new(NetMode::Off, (IpAddress::V4([127, 0, 0, 1]), 0)).err(),
        Some(ProxyError::NetworkOff)
    );
}

#[test]
fn host_names_are_normalized_or_refused() {
    assert_eq!(normalize_host("Api.Example.COM.", false), Ok("api.example.com".into()));
    assert_eq!(normalize_host("", false), Err(HostError::Blank));
    assert_eq!(normalize_host("a b", false), Err(HostError::Blank));
    assert_eq!(normalize_host("user@host", false), Err(HostError::UrlSyntax));
    assert_eq!(normalize_host("...", false), Err(HostError::UrlSyntax));
    assert_eq!(normalize_host("10.0.0.1", false), Err(HostError::NotDnsName));
    assert_eq!(normalize_host("::1", true), Err(HostError::NotDnsName));
    assert_eq!(normalize_host("010.0.0.1", false), Ok("010.0.0.1".into()));
    assert_eq!(normalize_host("-bad.com", false), Err(HostError::BadLabel));
    assert_eq!(normalize_host("a..b", false), Err(HostError::BadLabel));
    assert_eq!(normalize_host("exämple.com", false), Err(HostError::NotDnsName));
    assert!(host_matches("api.example.com", "Example.com"));
    assert!(host_matches("example.com", "example.com."));
    assert!(!host_matches("badexample.com", "example.com"));
    assert!(!host_matches("x.10.0.0.1", "10.0.0.1"));
}

#[test]
fn every_resolved_address_must_be_authorized() {
    let policy = BrokerPolicy::new(
        NetMode::Allowlist(vec!["example.com".into()]),
        (IpAddress::V4([127, 0, 0, 1]), 8080),
    )
    .unwrap();
    let good = (IpAddress::V4([93, 184, 216, 34]), 443);
    let bad = (IpAddress::V4([10, 0, 0, 5]), 443);
    assert_eq!(policy.authorize_all("example.com", false, 443, &[good]).map(|v| v.len()), Ok(1));
    assert_eq!(
        policy.authorize_all("example.com", false, 443, &[good, bad]).err(),
        Some(ProxyError::RestrictedAddress)
    );
    assert_eq!(policy.authorize_all("example.com", false, 443, &[]).err(), Some(ProxyError::NoAddresses));
    assert_eq!(policy.authorize_all("example.com", false, 0, &[good]).err(), Some(ProxyError::PortMismatch));
    assert_eq!(policy.authorize_all("other.org", false, 443, &[good]).err(), Some(ProxyError::NotAllowed));
    assert_eq!(HostError::BadLabel.message(), "host contains an invalid DNS label");
}
