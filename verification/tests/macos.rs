use vetto::macos::{should_spawn_watchdog, watch_exits, watch_liveness, WatchAction};
use vetto::linux::observe_seccomp::PathScope;
use vetto::macos::{evaluate_auth_event, AuthEvent, ES_AUTH_RESULT_ALLOW, ES_AUTH_RESULT_DENY, MAC_O_CREAT, MAC_O_WRONLY};
use vetto::backend::{MacosRefusal, MacosSandbox, NetMode};
use vetto::macos::{
    capabilities_from, change_notices, entitlement_in_codesign_output, inactive_notice, labels,
    status, EsProbe, ITEM_CREATED, ITEM_IS_DIR, USER_DROPPED,
};

#[test]
fn empty_flags_are_not_reported_as_reads() {
    assert_eq!(labels(0), "changed");
}

#[test]
fn labels_describe_changes_and_dropped_history() {
    let text = labels(ITEM_CREATED | ITEM_IS_DIR | USER_DROPPED);
    assert!(text.contains("created"));
    assert!(text.contains("directory"));
    assert!(text.contains("user_dropped"));
    assert_eq!(text, "user_dropped,created,directory");
}

#[test]
fn seatbelt_available_does_not_panic() {
    let _ = MacosSandbox::seatbelt_available(false, false);
    assert!(MacosSandbox::seatbelt_available(true, false));
    assert!(MacosSandbox::seatbelt_available(false, true));
    assert!(!MacosSandbox::seatbelt_available(false, false));
}

#[test]
fn relay_modes_are_refused_before_fork() {
    let off = MacosSandbox::new(NetMode::Off);
    assert_eq!(off.check_spawn(true), Ok(()));
    assert_eq!(off.check_spawn(false), Err(MacosRefusal::NoSeatbelt));
    let allow = MacosSandbox::new(NetMode::Allowlist(vec!["example.com".into()]));
    assert_eq!(allow.check_spawn(true), Err(MacosRefusal::AllowlistUnsupported));
    let strict = MacosSandbox::new(NetMode::Strict(vec![]));
    assert_eq!(strict.check_spawn(true), Err(MacosRefusal::StrictUnsupported));
}

#[test]
fn dropped_history_adds_a_warning() {
    let n = change_notices("/p", ITEM_CREATED);
    assert_eq!(n, vec!["fsevents change [created] path=/p".to_string()]);
    let n = change_notices("/q", USER_DROPPED);
    assert_eq!(n.len(), 2);
    assert_eq!(
        n[1],
        "fsevents warning: event history was dropped/wrapped near path=/q; this feed is incomplete"
    );
}

fn probe(all: bool) -> EsProbe {
    EsProbe {
        framework: all,
        new_client_symbol: all,
        subscribe_symbol: all,
        respond_auth_symbol: all,
        delete_client_symbol: all,
        entitlement: all,
        root: all,
        client_active: false,
    }
}

#[test]
fn endpoint_security_gates_report_the_first_missing_one() {
    let off = capabilities_from(false, probe(true));
    assert!(!off.runtime_ready());
    assert_eq!(
        off.reason,
        "feature endpoint-security is disabled; Seatbelt remains the enforcement boundary"
    );
    assert_eq!(
        inactive_notice(&off).unwrap(),
        "Endpoint Security inactive: feature endpoint-security is disabled; Seatbelt remains the enforcement boundary (Seatbelt remains primary enforcement)"
    );
    let ready = capabilities_from(true, probe(true));
    assert!(ready.runtime_ready());
    assert!(inactive_notice(&ready).is_none());
    let mut p = probe(true);
    p.root = false;
    let noroot = capabilities_from(true, p);
    assert!(!noroot.runtime_ready());
    assert_eq!(
        noroot.reason,
        "process is not running with root privilege that Endpoint Security requires"
    );
    assert_eq!(
        status(&noroot),
        "Endpoint Security: process is not running with root privilege that Endpoint Security requires; feature=yes, framework=yes, entitlement=yes, privileged=no, client-active=no"
    );
}

#[test]
fn entitlement_needs_a_true_value_after_the_key() {
    let key = "com.apple.developer.endpoint-security.client";
    assert!(entitlement_in_codesign_output(&format!("<key>{key}</key><true/>")));
    assert!(!entitlement_in_codesign_output(&format!("<true/><key>{key}</key><false/>")));
    assert!(!entitlement_in_codesign_output("<true/>"));
}

#[test]
fn endpoint_security_authorizes_by_path_scope() {
    let scope = PathScope {
        allow_read: vec!["/usr".to_string()],
        allow_write: vec!["/work/p".to_string()],
        deny: vec!["/work/p/.env".to_string()],
    };
    let open = |path: &str, fflag: i32| AuthEvent::Open { path: Some(path.to_string()), fflag };
    assert_eq!(evaluate_auth_event(&open("/usr/lib/x", 0), &scope), (ES_AUTH_RESULT_ALLOW, Some("/usr/lib/x".into())));
    assert_eq!(evaluate_auth_event(&open("/usr/lib/x", MAC_O_WRONLY), &scope).0, ES_AUTH_RESULT_DENY);
    assert_eq!(evaluate_auth_event(&open("/work/p/a.rs", MAC_O_CREAT), &scope).0, ES_AUTH_RESULT_ALLOW);
    assert_eq!(evaluate_auth_event(&open("/work/p/a.rs", 0), &scope).0, ES_AUTH_RESULT_ALLOW);
    assert_eq!(evaluate_auth_event(&open("/work/p/.env", 0), &scope).0, ES_AUTH_RESULT_DENY);
    assert_eq!(evaluate_auth_event(&open("/work/pp", 0), &scope).0, ES_AUTH_RESULT_DENY);
    assert_eq!(
        evaluate_auth_event(&AuthEvent::Unlink { path: Some("/usr/bin/ls".into()) }, &scope).0,
        ES_AUTH_RESULT_DENY
    );
    assert_eq!(evaluate_auth_event(&AuthEvent::Open { path: None, fflag: 1 }, &scope), (ES_AUTH_RESULT_ALLOW, None));
    assert_eq!(evaluate_auth_event(&AuthEvent::Exec, &scope), (ES_AUTH_RESULT_ALLOW, None));
}

#[test]
fn parent_death_watchdog_decisions() {
    assert!(should_spawn_watchdog(10, 20));
    assert!(!should_spawn_watchdog(10, 10));
    assert!(!should_spawn_watchdog(0, 20));
    assert_eq!(watch_exits(&[5, 20, 10], 10, 20), WatchAction::Exit);
    assert_eq!(watch_exits(&[10, 20], 10, 20), WatchAction::KillAgentAndExit);
    assert_eq!(watch_exits(&[5], 10, 20), WatchAction::Continue);
    assert_eq!(watch_liveness(true, true), WatchAction::KillAgentAndExit);
    assert_eq!(watch_liveness(false, true), WatchAction::Exit);
    assert_eq!(watch_liveness(false, false), WatchAction::Continue);
}
