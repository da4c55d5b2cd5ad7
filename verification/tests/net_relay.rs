use vetto::linux::net_relay::{
    build_git_ssh_command, build_proxy_env, domain_allowed, encode_base64, extract_sni,
    forbidden_destination, forbidden_ipv4, is_loopback_host, nat64_embedded_ipv4,
    confirmation_prompt, prompt_confirmation_interactive, reset_ask_cache, sni_gate, strict_allowed,
    strip_domain_port, AskCache, IpAddress, NetRule, SniVerdict,
};

fn v6(groups: [u16; 8]) -> [u8; 16] {
    let mut o = [0u8; 16];
    for (i, g) in groups.iter().enumerate() {
        o[2 * i] = (g >> 8) as u8;
        o[2 * i + 1] = (g & 0xff) as u8;
    }
    o
}

#[test]
fn extracts_rfc6052_nat64_ipv4_for_both_prefix_lengths() {
    let well_known = v6([0x0064, 0xff9b, 0, 0, 0, 0, 0xc000, 0x0221]);
    assert_eq!(nat64_embedded_ipv4(well_known), Some([192, 0, 2, 33]));
    let network_specific = v6([0x0064, 0xff9b, 1, 0xc000, 2, 0x2100, 0, 0]);
    assert_eq!(nat64_embedded_ipv4(network_specific), Some([192, 0, 2, 33]));
}

#[test]
fn rejects_forbidden_ipv4_destinations() {
    let forbidden = [
        [0, 0, 0, 0],
        [10, 1, 2, 3],
        [127, 0, 0, 1],
        [169, 254, 169, 254],
        [172, 16, 0, 1],
        [192, 168, 1, 1],
        [192, 0, 0, 1],
        [192, 0, 2, 1],
        [198, 51, 100, 1],
        [203, 0, 113, 1],
        [198, 18, 0, 1],
        [192, 88, 99, 1],
        [100, 100, 100, 200],
    ];
    for ip in forbidden {
        assert!(forbidden_destination(IpAddress::V4(ip)), "allowed {ip:?}");
    }
    assert!(!forbidden_destination(IpAddress::V4([93, 184, 216, 34])));
    assert!(!forbidden_ipv4([8, 8, 8, 8]));
}

#[test]
fn test_loopback_host_verification() {
    assert!(is_loopback_host("localhost"));
    assert!(is_loopback_host("127.0.0.1"));
    assert!(is_loopback_host("::1"));
    assert!(is_loopback_host("[::1]"));
    assert!(!is_loopback_host("evil.com"));
    assert!(!is_loopback_host("api.openai.com"));
    assert!(!is_loopback_host("192.168.1.1"));
}

#[test]
fn rejects_forbidden_ipv6_destinations_and_mapped_ipv4() {
    let forbidden = [
        v6([0, 0, 0, 0, 0, 0, 0, 1]),
        v6([0, 0, 0, 0, 0, 0, 0, 0]),
        v6([0xfe80, 0, 0, 0, 0, 0, 0, 1]),
        v6([0xfd00, 0, 0, 0, 0, 0, 0, 254]),
        v6([0xff02, 0, 0, 0, 0, 0, 0, 1]),
        v6([0x2001, 0xdb8, 0, 0, 0, 0, 0, 1]),
        v6([0x3fff, 0, 0, 0, 0, 0, 0, 1]),
        v6([0x2001, 0, 0, 0, 0, 0, 0, 1]),
        v6([0, 0, 0, 0, 0, 0xffff, 0x0a00, 1]),
        [0x00, 0x64, 0xff, 0x9b, 0, 0, 0, 0, 0, 0, 0, 0, 10, 1, 2, 3],
        [0x00, 0x64, 0xff, 0x9b, 0, 0, 0, 0, 0, 0, 0, 0, 169, 254, 169, 254],
        [0x00, 0x64, 0xff, 0x9b, 0, 1, 192, 168, 0, 1, 1, 0, 0, 0, 0, 0],
        [0x00, 0x64, 0xff, 0x9b, 0, 1, 169, 254, 0, 169, 254, 0, 0, 0, 0, 0],
    ];
    for ip in forbidden {
        assert!(forbidden_destination(IpAddress::V6(ip)), "allowed {ip:?}");
    }
    assert!(!forbidden_destination(IpAddress::V6(v6([0x2606, 0x4700, 0x20, 0, 0, 0, 0, 1]))));
    assert!(!forbidden_destination(IpAddress::V6([
        0x00, 0x64, 0xff, 0x9b, 0, 0, 0, 0, 0, 0, 0, 0, 8, 8, 8, 8,
    ])));
    assert!(!forbidden_destination(IpAddress::V6([
        0x00, 0x64, 0xff, 0x9b, 0, 1, 8, 8, 0, 8, 8, 0, 0, 0, 0, 0,
    ])));
}

#[test]
fn strict_policy_requires_exact_port_and_domain_boundary() {
    let rules = vec![NetRule { domain: "github.com".into(), port: 443 }];
    assert!(strict_allowed("github.com", 443, &rules));
    assert!(strict_allowed("api.github.com.", 443, &rules));
    assert!(!strict_allowed("github.com", 22, &rules));
    assert!(!strict_allowed("notgithub.com", 443, &rules));
    let star = vec![NetRule { domain: "*".into(), port: 443 }];
    assert!(!strict_allowed("github.com", 443, &star));
}

#[test]
fn git_ssh_command_quotes_executable_and_uses_proxy_helper() {
    let command = build_git_ssh_command("/tmp/vetto agent");
    assert!(command.contains("ProxyCommand="));
    assert!(command.contains("ssh-proxy %h %p"));
    assert!(command.contains("'\\''") || command.contains("'/tmp/vetto agent'"));
    assert_eq!(
        command,
        "ssh -o BatchMode=yes -o ProxyCommand=''\\''/tmp/vetto agent'\\'' ssh-proxy %h %p'"
    );
}

#[test]
fn wildcard_domain_matching_covers_subdomains_only() {
    let allowlist = vec!["*.githubusercontent.com".to_string(), "crates.io".to_string()];
    assert!(domain_allowed("raw.githubusercontent.com", &allowlist));
    assert!(domain_allowed("avatars.githubusercontent.com", &allowlist));
    assert!(domain_allowed("a.b.githubusercontent.com", &allowlist));
    assert!(!domain_allowed("githubusercontent.com", &allowlist));
    assert!(!domain_allowed("notgithubusercontent.com", &allowlist));
    assert!(domain_allowed("crates.io", &allowlist));
    assert!(domain_allowed("index.crates.io", &allowlist));
    assert!(!domain_allowed("notcrates.io", &allowlist));
}

#[test]
fn domain_allowed_normalizes_port_suffixes() {
    let allowlist_with_ports = vec!["crates.io:443".to_string(), "*.github.com:443".to_string()];
    assert!(domain_allowed("crates.io", &allowlist_with_ports));
    assert!(domain_allowed("crates.io:443", &allowlist_with_ports));
    assert!(domain_allowed("api.github.com", &allowlist_with_ports));
    assert!(domain_allowed("api.github.com:443", &allowlist_with_ports));
    assert!(!domain_allowed("evil.com", &allowlist_with_ports));

    let plain_allowlist = vec!["crates.io".to_string(), "*.github.com".to_string()];
    assert!(domain_allowed("crates.io:443", &plain_allowlist));
    assert!(domain_allowed("api.github.com:443", &plain_allowlist));
}

#[test]
fn strip_domain_port_handles_brackets_and_ports() {
    assert_eq!(strip_domain_port(" Example.com.:8080 "), "Example.com.");
    assert_eq!(strip_domain_port(" Example.com. "), "Example.com");
    assert_eq!(strip_domain_port("[2001:db8::1]:443"), "2001:db8::1");
    assert_eq!(strip_domain_port("2001:db8::1"), "2001:db8::1");
    assert_eq!(strip_domain_port("host:"), "host:");
    assert_eq!(strip_domain_port("[unclosed"), "[unclosed");
}

#[test]
fn interactive_ask_non_tty_fails_closed() {
    let reply = prompt_confirmation_interactive("api.example.com", 443, false, Some("y\n"));
    assert!(!reply.allowed);
    assert_eq!(reply.persist, None);
    let out_str = confirmation_prompt("api.example.com", 443, false);
    assert!(out_str.contains("interactive confirmation unavailable (stdin is not a tty)"));
    assert!(out_str.contains("connection to 'api.example.com:443' denied (fail-closed)"));
}

#[test]
fn interactive_ask_on_a_terminal_shows_the_question() {
    assert_eq!(
        confirmation_prompt("a.example.com", 8080, true),
        "vetto: allow network connection to 'a.example.com:8080'? [y/N/p (permanent)]: "
    );
}

#[test]
fn interactive_ask_temporary_yes() {
    let reply = prompt_confirmation_interactive("allowed.example.com", 443, true, Some("y\n"));
    assert!(reply.allowed);
    assert_eq!(reply.persist, None);
    let reply = prompt_confirmation_interactive("allowed.example.com", 443, true, Some(" YES \n"));
    assert!(reply.allowed);
}

#[test]
fn interactive_ask_denial_on_no_or_invalid() {
    for input in ["n\n", "no\n", "\n", "invalid\n"] {
        let reply = prompt_confirmation_interactive("blocked.example.com", 443, true, Some(input));
        assert!(!reply.allowed);
    }
    assert!(!prompt_confirmation_interactive("x.com", 1, true, None).allowed);
}

#[test]
fn interactive_ask_permanent_names_normalized_host() {
    let reply = prompt_confirmation_interactive("Perm.Example.COM.", 443, true, Some("permanent\n"));
    assert!(reply.allowed);
    assert_eq!(reply.persist, Some("perm.example.com".to_string()));
}

#[test]
fn ask_cache_remembers_by_normalized_host() {
    let mut cache = AskCache::new();
    assert_eq!(cache.get("a.com"), None);
    cache.insert("A.com.", true);
    assert_eq!(cache.get(" a.com"), Some(true));
    cache.insert("a.com", false);
    assert_eq!(cache.get("a.com"), Some(false));
    reset_ask_cache(&mut cache);
    assert_eq!(cache.get("a.com"), None);
}

#[test]
fn test_encode_base64() {
    assert_eq!(encode_base64("user:pass"), "dXNlcjpwYXNz");
    assert_eq!(encode_base64("admin:password123"), "YWRtaW46cGFzc3dvcmQxMjM=");
    assert_eq!(encode_base64("Aladdin:open sesame"), "QWxhZGRpbjpvcGVuIHNlc2FtZQ==");
    assert_eq!(encode_base64(""), "");
}

#[test]
fn proxy_env_points_every_variable_at_the_relay() {
    let env = build_proxy_env(47129);
    assert_eq!(env.len(), 8);
    for (k, v) in &env[..6] {
        assert!(k.to_ascii_uppercase().ends_with("_PROXY"));
        assert_eq!(v, "http://127.0.0.1:47129");
    }
    assert_eq!(env[6], ("NO_PROXY".to_string(), String::new()));
    assert_eq!(env[7], ("no_proxy".to_string(), String::new()));
}

fn client_hello(name: &str) -> Vec<u8> {
    let mut ext = Vec::new();
    let mut sni = vec![0u8];
    sni.extend_from_slice(&(name.len() as u16).to_be_bytes());
    sni.extend_from_slice(name.as_bytes());
    let mut list = (sni.len() as u16).to_be_bytes().to_vec();
    list.extend(sni);
    ext.extend_from_slice(&0u16.to_be_bytes());
    ext.extend_from_slice(&(list.len() as u16).to_be_bytes());
    ext.extend(list);
    let mut body = vec![0x03, 0x03];
    body.extend_from_slice(&[0u8; 32]);
    body.push(0);
    body.extend_from_slice(&2u16.to_be_bytes());
    body.extend_from_slice(&[0x13, 0x01]);
    body.push(1);
    body.push(0);
    body.extend_from_slice(&(ext.len() as u16).to_be_bytes());
    body.extend(ext);
    let mut hs = vec![0x01];
    let l = body.len() as u32;
    hs.extend_from_slice(&[(l >> 16) as u8, (l >> 8) as u8, l as u8]);
    hs.extend(body);
    let mut rec = vec![0x16, 0x03, 0x01];
    rec.extend_from_slice(&(hs.len() as u16).to_be_bytes());
    rec.extend(hs);
    rec
}

#[test]
fn sni_extraction_and_gate() {
    let hello = client_hello("api.github.com");
    assert_eq!(extract_sni(&hello), Ok(Some("api.github.com".to_string())));
    assert_eq!(extract_sni(&hello[..20]), Ok(None));
    assert_eq!(extract_sni(&[]), Ok(None));
    assert_eq!(extract_sni(b"GET / HTTP/1.1"), Err(()));
    assert_eq!(sni_gate(&hello, "github.com", false), SniVerdict::Accept);
    assert_eq!(
        sni_gate(&hello, "evil.com", false),
        SniVerdict::Mismatch { expected: "evil.com".to_string(), actual: "api.github.com".to_string() }
    );
    assert_eq!(sni_gate(&hello[..20], "github.com", false), SniVerdict::NeedMore);
    assert_eq!(sni_gate(b"\x17", "github.com", false), SniVerdict::Malformed);
}
