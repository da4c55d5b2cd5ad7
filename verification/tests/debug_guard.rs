use vetto::linux::debug_guard::{DebugPortConfig, DebugPortGuard, DebugPortVerdict};

fn guard(config: DebugPortConfig) -> DebugPortGuard {
    DebugPortGuard::new(config, 4242, 0x0123_4567_89ab_cdef_0011_2233_4455_6677)
}

#[test]
fn default_blocks_sensitive_ports_without_token() {
    let guard = guard(DebugPortConfig::default());
    assert_eq!(
        guard.check_access(9222, None),
        DebugPortVerdict::Blocked {
            port: 9222,
            service: "Chrome DevTools",
        }
    );
    assert_eq!(
        guard.check_access(9229, None),
        DebugPortVerdict::Blocked {
            port: 9229,
            service: "Node.js Inspector",
        }
    );
    assert_eq!(
        guard.check_access(5678, None),
        DebugPortVerdict::Blocked {
            port: 5678,
            service: "Python debugpy",
        }
    );
    assert_eq!(guard.check_access(8080, None), DebugPortVerdict::Allowed);
    assert_eq!(guard.check_access(3000, None), DebugPortVerdict::Allowed);
}

#[test]
fn valid_session_token_allows_access() {
    let guard = guard(DebugPortConfig::default());
    let token = guard.session_token().to_string();
    assert_eq!(
        guard.check_access(9222, Some(&token)),
        DebugPortVerdict::Allowed
    );
    assert_eq!(
        guard.check_access(9229, Some(&token)),
        DebugPortVerdict::Allowed
    );
    assert_eq!(
        guard.check_access(5678, Some(&token)),
        DebugPortVerdict::Allowed
    );
    assert_eq!(
        guard.check_access(9222, Some("invalid_token")),
        DebugPortVerdict::Blocked {
            port: 9222,
            service: "Chrome DevTools",
        }
    );
}

#[test]
fn allowed_ports_config_bypasses_block() {
    let config = DebugPortConfig {
        isolate_devtools: true,
        isolate_node_inspect: true,
        isolate_debugpy: true,
        allowed_ports: vec![9229],
    };
    let guard = guard(config);
    assert_eq!(guard.check_access(9229, None), DebugPortVerdict::Allowed);
    assert_eq!(
        guard.check_access(9222, None),
        DebugPortVerdict::Blocked {
            port: 9222,
            service: "Chrome DevTools",
        }
    );
}

#[test]
fn selective_feature_flags() {
    let config = DebugPortConfig {
        isolate_devtools: false,
        isolate_node_inspect: true,
        isolate_debugpy: false,
        allowed_ports: vec![],
    };
    let guard = guard(config);
    assert_eq!(guard.check_access(9222, None), DebugPortVerdict::Allowed);
    assert_eq!(
        guard.check_access(9229, None),
        DebugPortVerdict::Blocked {
            port: 9229,
            service: "Node.js Inspector",
        }
    );
    assert_eq!(guard.check_access(5678, None), DebugPortVerdict::Allowed);
}

#[test]
fn token_is_prefixed_hex_of_a_sha256_digest() {
    let a = guard(DebugPortConfig::default());
    let token = a.session_token();
    assert_eq!(token.len(), 36);
    assert!(token.starts_with("vdt_"));
    assert!(token[4..].chars().all(|c| c.is_ascii_hexdigit() && !c.is_ascii_uppercase()));
    let b = DebugPortGuard::new(DebugPortConfig::default(), 4243, 0x0123_4567_89ab_cdef_0011_2233_4455_6677);
    assert_ne!(a.session_token(), b.session_token());
    let c = guard(DebugPortConfig::default());
    assert_eq!(a.session_token(), c.session_token());
}

#[test]
fn hex_encoding_is_lower_case_pairs() {
    assert_eq!(vetto::linux::debug_guard::encode(&[0x00, 0xff, 0x1a]), "00ff1a");
    assert_eq!(vetto::linux::debug_guard::encode(&[]), "");
}

#[test]
fn with_token_keeps_the_given_token() {
    let g = DebugPortGuard::with_token(DebugPortConfig::default(), "secret".to_string());
    assert_eq!(g.session_token(), "secret");
    assert_eq!(g.check_access(9222, Some("secret")), DebugPortVerdict::Allowed);
    assert!(g.is_debug_port(9229));
    assert!(!g.is_debug_port(80));
    assert_eq!(g.identify_service(5678), Some("Python debugpy"));
    assert_eq!(g.identify_service(80), None);
}
