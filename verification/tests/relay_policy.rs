use vetto::linux::net_relay::quota_breach;
use vetto::linux::debug_guard::{DebugPortConfig, DebugPortGuard};
use vetto::linux::net_relay::{
    domain_matches_pattern, find_matching_quotas, first_set, get_upstream_proxy, host_ip_text,
    is_doh_or_dot, prompt_confirmation_interactive, request_allowed, reset_domain_transfer_stats,
    split_cidr, BrokerConfig, BrokerPolicy, CidrError, IpAddress, IpCidr, QuotaRule, RelayMode,
    RequestVerdict, TransferStats,
};

fn config(policy: BrokerPolicy) -> BrokerConfig {
    BrokerConfig {
        policy,
        debug_guard: None,
        mode: RelayMode::NetNs,
        allow_cidr: Vec::new(),
        quotas: Vec::new(),
        policy_path: None,
        block_doh: false,
        http_proxy: None,
        https_proxy: None,
        no_proxy: None,
    }
}

fn v4(a: u8, b: u8, c: u8, d: u8) -> IpAddress {
    IpAddress::V4([a, b, c, d])
}

fn v6(groups: [u16; 8]) -> IpAddress {
    let mut o = [0u8; 16];
    for (i, g) in groups.iter().enumerate() {
        o[2 * i] = (g >> 8) as u8;
        o[2 * i + 1] = (g & 0xff) as u8;
    }
    IpAddress::V6(o)
}

fn decide(host: &str, port: u16, cfg: &BrokerConfig, stats: &TransferStats) -> RequestVerdict {
    request_allowed(host, port, None, cfg, stats, None, None, None, None)
}

#[test]
fn ip_cidr_parsing_and_containment() {
    let cidr_v4 = IpCidr::from_parts(v4(10, 0, 0, 0), Some(8)).unwrap();
    assert!(cidr_v4.contains(v4(10, 0, 0, 1)));
    assert!(cidr_v4.contains(v4(10, 255, 255, 255)));
    assert!(!cidr_v4.contains(v4(11, 0, 0, 1)));

    let cidr_v4_single = IpCidr::from_parts(v4(192, 168, 1, 100), Some(32)).unwrap();
    assert!(cidr_v4_single.contains(v4(192, 168, 1, 100)));
    assert!(!cidr_v4_single.contains(v4(192, 168, 1, 101)));

    let cidr_v6 = IpCidr::from_parts(v6([0x2001, 0xdb8, 0, 0, 0, 0, 0, 0]), Some(32)).unwrap();
    assert!(cidr_v6.contains(v6([0x2001, 0xdb8, 0x1234, 0, 0, 0, 0, 1])));
    assert!(!cidr_v6.contains(v6([0x2001, 0xdb9, 0, 0, 0, 0, 0, 1])));

    let bare_v4 = IpCidr::from_parts(v4(10, 0, 0, 5), None).unwrap();
    assert_eq!(bare_v4.prefix_len, 32);
    assert!(bare_v4.contains(v4(10, 0, 0, 5)));
    assert!(!bare_v4.contains(v4(10, 0, 0, 6)));

    assert_eq!(split_cidr("[2001:db8::]/64"), Ok(("2001:db8::".to_string(), Some(64))));
    assert_eq!(split_cidr(" [::1] "), Ok(("::1".to_string(), None)));
    assert_eq!(split_cidr("10.0.0.0/x"), Err(CidrError::BadPrefix));
    assert_eq!(split_cidr("10.0.0.0/256"), Err(CidrError::BadPrefix));
    assert_eq!(
        IpCidr::from_parts(v4(10, 0, 0, 1), Some(33)),
        Err(CidrError::V4PrefixTooLong(33))
    );
    let odd = IpCidr::from_parts(v4(10, 0, 0, 0), Some(12)).unwrap();
    assert!(odd.contains(v4(10, 15, 1, 1)));
    assert!(!odd.contains(v4(10, 16, 1, 1)));
    assert!(!odd.contains(v6([0, 0, 0, 0, 0, 0, 0, 1])));
}

#[test]
fn test_domain_matches_pattern_hierarchy() {
    assert!(domain_matches_pattern("github.com", "github.com", None, None));
    assert!(domain_matches_pattern("api.github.com", "github.com", None, None));
    assert!(domain_matches_pattern("codeload.github.com", "github.com", None, None));
    assert!(domain_matches_pattern("a.b.c.github.com", "github.com", None, None));
    assert!(!domain_matches_pattern("notgithub.com", "github.com", None, None));

    assert!(domain_matches_pattern("api.github.com", "*.github.com", None, None));
    assert!(domain_matches_pattern("github.com", "*.github.com", None, None));
    assert!(!domain_matches_pattern("evil.com", "*.github.com", None, None));

    assert!(domain_matches_pattern("anything.com", "*", None, None));

    let net = IpCidr::from_parts(v4(10, 0, 0, 0), Some(16)).ok();
    assert!(domain_matches_pattern("10.0.1.5", "10.0.0.0/16", Some(v4(10, 0, 1, 5)), net));
    assert!(!domain_matches_pattern("192.168.1.1", "10.0.0.0/16", Some(v4(192, 168, 1, 1)), net));
    assert_eq!(host_ip_text(" [::1]. "), "::1");
}

#[test]
fn test_hierarchical_quota_aggregation_and_enforcement() {
    let mut stats = TransferStats::new();
    reset_domain_transfer_stats(&mut stats);
    stats.add_transfer("api.github.com", None, 30 * 1024 * 1024, 10 * 1024 * 1024);
    stats.add_transfer("codeload.github.com", None, 15 * 1024 * 1024, 5 * 1024 * 1024);
    stats.add_transfer("crates.io", None, 5 * 1024 * 1024, 5 * 1024 * 1024);

    assert_eq!(stats.get_quota_bytes("api.github.com", None), 40 * 1024 * 1024);
    assert_eq!(stats.get_quota_bytes("codeload.github.com", None), 20 * 1024 * 1024);
    assert_eq!(stats.get_quota_bytes("github.com", None), 60 * 1024 * 1024);
    assert_eq!(stats.get_quota_bytes("crates.io", None), 10 * 1024 * 1024);
    assert_eq!(stats.get_quota_bytes("other.org", None), 0);

    let mut cfg = config(BrokerPolicy::Allowlist(vec!["github.com".into()]));
    cfg.quotas = vec![QuotaRule { pattern: "github.com".into(), limit: 100 * 1024 * 1024, cidr: None }];
    assert_eq!(decide("gist.github.com", 443, &cfg, &stats), RequestVerdict::Allowed);

    stats.add_transfer("gist.github.com", None, 25 * 1024 * 1024, 25 * 1024 * 1024);
    assert_eq!(stats.get_quota_bytes("github.com", None), 110 * 1024 * 1024);

    assert_eq!(decide("api.github.com", 443, &cfg, &stats), RequestVerdict::Denied);
    assert_eq!(decide("raw.github.com", 443, &cfg, &stats), RequestVerdict::Denied);

    reset_domain_transfer_stats(&mut stats);
    assert_eq!(stats.get_quota_bytes("github.com", None), 0);
    assert_eq!(decide("api.github.com", 443, &cfg, &stats), RequestVerdict::Allowed);
}

#[test]
fn repeated_transfers_accumulate_per_host() {
    let mut stats = TransferStats::new();
    assert_eq!(stats.add_transfer(" Crates.IO ", None, 1, 2), None);
    assert_eq!(stats.add_transfer("crates.io", None, 3, 4), Some(0));
    assert_eq!(stats.domain_bytes("CRATES.io"), 10);
    assert_eq!(stats.domain_bytes("other"), 0);
}

#[test]
fn quotas_are_listed_most_specific_first() {
    let quotas = vec![
        QuotaRule { pattern: "github.com".into(), limit: 1, cidr: None },
        QuotaRule { pattern: "api.github.com".into(), limit: 2, cidr: None },
        QuotaRule { pattern: "crates.io".into(), limit: 3, cidr: None },
        QuotaRule { pattern: "*".into(), limit: 4, cidr: None },
    ];
    let found = find_matching_quotas("api.github.com", None, &quotas);
    assert_eq!(
        found,
        vec![("api.github.com".to_string(), 2), ("github.com".to_string(), 1), ("*".to_string(), 4)]
    );
}

#[test]
fn doh_and_dot_blocking_intercepts_known_providers_and_ports() {
    assert!(is_doh_or_dot("1.1.1.1", 443, None, Some(v4(1, 1, 1, 1))));
    assert!(is_doh_or_dot("8.8.8.8", 443, None, Some(v4(8, 8, 8, 8))));
    assert!(is_doh_or_dot("dns.google", 443, None, None));
    assert!(is_doh_or_dot("cloudflare-dns.com", 443, None, None));
    assert!(is_doh_or_dot("dns.quad9.net", 443, None, None));
    assert!(is_doh_or_dot("anydomain.com", 853, None, None));
    assert!(!is_doh_or_dot("example.com", 443, Some(v4(93, 184, 216, 34)), None));
    assert!(is_doh_or_dot("x", 443, Some(v6([0x2620, 0xfe, 0, 0, 0, 0, 0, 0xfe])), None));
}

#[test]
fn test_doh_dot_blocking_flags() {
    let stats = TransferStats::new();
    let mut cfg = config(BrokerPolicy::Allowlist(vec!["allowed.com".into()]));
    cfg.block_doh = true;
    assert_ne!(decide("anydomain.com", 853, &cfg, &stats), RequestVerdict::Allowed);
    assert_ne!(decide("8.8.8.8", 853, &cfg, &stats), RequestVerdict::Allowed);
    assert_eq!(decide("cloudflare-dns.com", 443, &cfg, &stats), RequestVerdict::DohBlocked);
    assert_eq!(decide("dns.google", 443, &cfg, &stats), RequestVerdict::DohBlocked);
    assert_eq!(decide("8.8.8.8", 443, &cfg, &stats), RequestVerdict::DohBlocked);

    let mut allowed = config(BrokerPolicy::Allowlist(vec!["cloudflare-dns.com".into()]));
    allowed.block_doh = true;
    assert_eq!(decide("cloudflare-dns.com", 443, &allowed, &stats), RequestVerdict::Allowed);

    cfg.block_doh = false;
    cfg.policy = BrokerPolicy::Allowlist(vec!["*".into()]);
    assert_eq!(decide("anydomain.com", 853, &cfg, &stats), RequestVerdict::Allowed);
    assert_eq!(decide("cloudflare-dns.com", 443, &cfg, &stats), RequestVerdict::Allowed);
}

#[test]
fn request_allowed_ask_preallowed_domain_does_not_prompt() {
    let stats = TransferStats::new();
    let cfg = config(BrokerPolicy::Ask(vec!["preallowed.com".into()]));
    assert_eq!(decide("preallowed.com", 443, &cfg, &stats), RequestVerdict::Allowed);
    assert_eq!(decide("sub.preallowed.com", 443, &cfg, &stats), RequestVerdict::Allowed);
    assert_eq!(decide("unknown.com", 443, &cfg, &stats), RequestVerdict::NeedsConfirmation);
    let reply = prompt_confirmation_interactive("unknown.com", 443, false, None);
    let v = request_allowed("unknown.com", 443, None, &cfg, &stats, None, None, None, Some(reply.allowed));
    assert_eq!(v, RequestVerdict::Denied);
    let v = request_allowed("unknown.com", 443, None, &cfg, &stats, None, None, Some(true), None);
    assert_eq!(v, RequestVerdict::Allowed);
}

#[test]
fn loopback_debug_ports_need_the_session_token() {
    let stats = TransferStats::new();
    let mut cfg = config(BrokerPolicy::Allowlist(vec![]));
    let guard = DebugPortGuard::with_token(DebugPortConfig::default(), "tok".to_string());
    cfg.debug_guard = Some(guard);
    assert_eq!(decide("127.0.0.1", 9222, &cfg, &stats), RequestVerdict::Denied);
    assert_eq!(
        request_allowed("localhost", 9222, Some("tok"), &cfg, &stats, None, None, None, None),
        RequestVerdict::Allowed
    );
    assert_eq!(decide("localhost", 8080, &cfg, &stats), RequestVerdict::Allowed);
    assert_eq!(decide("example.com", 443, &cfg, &stats), RequestVerdict::Denied);
    cfg.allow_cidr = vec![IpCidr::from_parts(v4(93, 184, 0, 0), Some(16)).unwrap()];
    assert_eq!(
        request_allowed("93.184.216.34", 443, None, &cfg, &stats, Some(v4(93, 184, 216, 34)), None, None, None),
        RequestVerdict::Allowed
    );
}

#[test]
fn test_get_upstream_proxy_routing() {
    let mut cfg = config(BrokerPolicy::Allowlist(Vec::new()));
    cfg.http_proxy = Some("http://proxy.corp:8080".into());
    cfg.https_proxy = Some("http://proxy.corp:8443".into());
    cfg.no_proxy = Some("localhost,127.0.0.1,.local,ignore.com".into());
    assert_eq!(get_upstream_proxy("example.com", 80, &cfg).as_deref(), Some("http://proxy.corp:8080"));
    assert_eq!(get_upstream_proxy("example.com", 443, &cfg).as_deref(), Some("http://proxy.corp:8443"));
    assert_eq!(get_upstream_proxy("localhost", 80, &cfg), None);
    assert_eq!(get_upstream_proxy("127.0.0.1", 443, &cfg), None);
    assert_eq!(get_upstream_proxy("api.local", 443, &cfg), None);
    assert_eq!(get_upstream_proxy("ignore.com", 80, &cfg), None);
    assert_eq!(get_upstream_proxy("sub.ignore.com", 80, &cfg), None);
}

#[test]
fn first_set_proxy_variable_wins() {
    assert_eq!(first_set(vec![None, Some("a".into()), Some("b".into())]), Some("a".into()));
    assert_eq!(first_set(vec![None, None]), None);
}

#[test]
fn first_broken_quota_cuts_the_tunnel() {
    let used = vec![
        ("a.com".to_string(), 1000u64, 100u64),
        ("*.b.org".to_string(), 500u64, 450u64),
        ("10.0.0.0/8".to_string(), 100u64, 9u64),
    ];
    assert_eq!(quota_breach(&used, 40), None);
    assert_eq!(quota_breach(&used, 51), Some(("*.b.org".to_string(), 500, 501)));
    assert_eq!(quota_breach(&used, 901), Some(("a.com".to_string(), 1000, 1001)));
    assert_eq!(quota_breach(&[], 1 << 40), None);
}

#[test]
fn loopback_debug_guard_integration() {
    let stats = TransferStats::new();
    let guard = DebugPortGuard::new(
        DebugPortConfig { isolate_devtools: true, ..DebugPortConfig::default() },
        4242,
        7,
    );
    let mut cfg = config(BrokerPolicy::Allowlist(vec!["127.0.0.1".to_string()]));
    cfg.debug_guard = Some(guard.clone());

    assert_eq!(decide("127.0.0.1", 9222, &cfg, &stats), RequestVerdict::Denied);
    assert_eq!(decide("127.0.0.1", 9229, &cfg, &stats), RequestVerdict::Denied);
    assert_eq!(decide("127.0.0.1", 5678, &cfg, &stats), RequestVerdict::Denied);

    let token = guard.session_token().to_string();
    for port in [9222u16, 9229, 5678] {
        assert_eq!(
            request_allowed("127.0.0.1", port, Some(&token), &cfg, &stats, None, None, None, None),
            RequestVerdict::Allowed
        );
    }
    assert_eq!(decide("127.0.0.1", 8080, &cfg, &stats), RequestVerdict::Allowed);

    let mut default_cfg = config(BrokerPolicy::Allowlist(Vec::new()));
    default_cfg.debug_guard = Some(DebugPortGuard::new(DebugPortConfig::default(), 4242, 7));
    assert_eq!(decide("127.0.0.1", 9222, &default_cfg, &stats), RequestVerdict::Denied);
    assert_eq!(decide("127.0.0.1", 9223, &default_cfg, &stats), RequestVerdict::Denied);
    assert_eq!(decide("localhost", 3000, &default_cfg, &stats), RequestVerdict::Allowed);
    assert_eq!(decide("127.0.0.1", 5173, &default_cfg, &stats), RequestVerdict::Allowed);
    assert_eq!(decide("127.0.0.1", 9229, &default_cfg, &stats), RequestVerdict::Denied);
    assert_eq!(decide("127.0.0.1", 5678, &default_cfg, &stats), RequestVerdict::Denied);
}
