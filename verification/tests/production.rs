use vetto::backend::NetMode;
use vetto::linux::Tier;
use vetto::production::{
    finish_verdict, prod_tier_mapping, EvidenceStrength, spawn_preflight, CapabilityProbe, FinishReason, HostPlatform,
    PreflightError, SecurityCapability, VerdictStatus, FAIL_CLOSED_EXIT_CODE,
};

fn linux_probe(landlock: bool, seccomp: bool) -> CapabilityProbe {
    CapabilityProbe {
        platform: HostPlatform::Linux,
        landlock,
        seccomp,
        seatbelt: false,
        win_sandboxed_process: false,
        win_job_kill_on_close: false,
    }
}

#[test]
fn test_prod_tier_mapping_001_honest() {
    let host = linux_probe(true, true);
    let off = NetMode::Off;
    let relay = NetMode::Allowlist(vec!["example.com".to_string()]);
    let full_off = prod_tier_mapping(Some(Tier::Full), &off, &host);
    assert!(full_off
        .mandatory
        .contains(&SecurityCapability::FilesystemIsolation));
    let full_relay = prod_tier_mapping(Some(Tier::Full), &relay, &host);
    assert!(!full_relay
        .enforced
        .contains(&SecurityCapability::NetworkIsolation));
    assert!(
        !full_relay
            .mandatory
            .contains(&SecurityCapability::NetworkIsolation),
        "relay net is not a 3B UnixOnly claim"
    );
    let sec = prod_tier_mapping(Some(Tier::Seccomp), &off, &host);
    assert!(!sec
        .mandatory
        .contains(&SecurityCapability::FilesystemIsolation));
    assert!(!sec
        .mandatory
        .contains(&SecurityCapability::ExecutionRootIsolation));
    let fs_off = prod_tier_mapping(Some(Tier::FsOnly), &off, &host);
    assert_ne!(fs_off.net_label, "allowlist:example.com");
    assert!(fs_off.notes.contains("relay"));
}

#[test]
fn full_tier_with_network_off_can_pass_on_a_complete_linux_host() {
    let m = prod_tier_mapping(Some(Tier::Full), &NetMode::Off, &linux_probe(true, true));
    assert_eq!(m.enforced.len(), 8);
    assert!(m.unsupported.is_empty());
    assert!(m.allows_pass_possible);
    assert_eq!(m.tier_label, "full");
    assert_eq!(m.net_label, "off");
}

#[test]
fn missing_landlock_makes_full_tier_unpassable() {
    let m = prod_tier_mapping(Some(Tier::Full), &NetMode::Off, &linux_probe(false, true));
    assert_eq!(
        m.unsupported,
        vec![SecurityCapability::FilesystemIsolation, SecurityCapability::ExecutionRootIsolation]
    );
    assert!(!m.allows_pass_possible);
}

#[test]
fn seccomp_tier_with_relay_can_pass_without_landlock() {
    let relay = NetMode::Allowlist(vec!["a.com".to_string(), "b.org".to_string()]);
    let m = prod_tier_mapping(Some(Tier::Seccomp), &relay, &linux_probe(false, true));
    assert!(m.allows_pass_possible);
    assert_eq!(m.net_label, "allowlist:a.com,b.org");
    assert_eq!(
        m.mandatory,
        vec![
            SecurityCapability::ProcessIsolation,
            SecurityCapability::ProcessTreeContainment,
            SecurityCapability::ResourceLimits,
            SecurityCapability::SyscallRestriction,
            SecurityCapability::HostEvidence,
        ]
    );
}

#[test]
fn macos_without_tier_needs_seatbelt_and_network_off() {
    let mac = CapabilityProbe {
        platform: HostPlatform::Macos,
        landlock: false,
        seccomp: false,
        seatbelt: true,
        win_sandboxed_process: false,
        win_job_kill_on_close: false,
    };
    let off = prod_tier_mapping(None, &NetMode::Off, &mac);
    assert_eq!(off.tier_label, "seatbelt");
    assert!(off.allows_pass_possible);
    let ask = prod_tier_mapping(None, &NetMode::Ask, &mac);
    assert!(!ask.allows_pass_possible);
    assert_eq!(ask.net_label, "ask");
    let none = prod_tier_mapping(None, &NetMode::Off, &CapabilityProbe { seatbelt: false, ..mac });
    assert!(none.enforced.is_empty());
    assert_eq!(none.unsupported.len(), 8);
}

#[test]
fn unsupported_platform_enforces_nothing() {
    let other = CapabilityProbe {
        platform: HostPlatform::Other,
        landlock: true,
        seccomp: true,
        seatbelt: true,
        win_sandboxed_process: true,
        win_job_kill_on_close: true,
    };
    let m = prod_tier_mapping(None, &NetMode::Off, &other);
    assert_eq!(m.tier_label, "unsupported");
    assert_eq!(m.mandatory, vec![SecurityCapability::HostEvidence]);
    assert!(m.enforced.is_empty());
    assert!(!m.allows_pass_possible);
}

#[test]
fn finish_passes_only_a_clean_zero_exit() {
    let v = finish_verdict(Some(0), true, true, true);
    assert_eq!(v.exit_code, Some(0));
    assert_eq!(v.status, VerdictStatus::Pass);
    assert_eq!(v.reason, FinishReason::Completed);
    assert!(!v.fail_closed);
    let v = finish_verdict(None, true, true, true);
    assert_eq!((v.exit_code, v.verdict_code, v.status), (None, 0, VerdictStatus::Pass));
    let v = finish_verdict(Some(3), true, true, true);
    assert_eq!((v.exit_code, v.status, v.fail_closed), (Some(3), VerdictStatus::Fail, false));
}

#[test]
fn finish_fails_closed_with_exit_125() {
    let v = finish_verdict(Some(0), false, true, true);
    assert_eq!((v.exit_code, v.verdict_code), (Some(FAIL_CLOSED_EXIT_CODE), 125));
    assert_eq!(v.status, VerdictStatus::Fail);
    assert_eq!(v.reason, FinishReason::ExtinctionBreach);
    assert!(v.fail_closed);
    let v = finish_verdict(Some(0), true, false, true);
    assert_eq!((v.exit_code, v.status, v.reason), (Some(125), VerdictStatus::Inconclusive, FinishReason::EvidenceDropped));
    assert_eq!(v.strength, EvidenceStrength::Strong);
    let v = finish_verdict(None, true, true, false);
    assert_eq!((v.exit_code, v.status, v.reason), (Some(125), VerdictStatus::Fail, FinishReason::LedgerUnverified));
    let v = finish_verdict(Some(0), false, false, false);
    assert_eq!((v.status, v.reason), (VerdictStatus::Fail, FinishReason::EvidenceDropped));
    assert_eq!(
        FinishReason::EvidenceDropped.text(),
        "Evidence capture channel dropped events: audit ledger inconclusive (INV-37)"
    );
}

#[test]
fn spawn_preflight_refuses_drift() {
    let off = NetMode::Off;
    assert_eq!(spawn_preflight(true, true, "off", &off, Some((true, true))), Ok(()));
    assert_eq!(spawn_preflight(false, true, "off", &off, None), Err(PreflightError::NotPrepared));
    assert_eq!(spawn_preflight(true, false, "off", &off, None), Err(PreflightError::FrozenInputDrift));
    assert_eq!(spawn_preflight(true, true, "ask", &off, None), Err(PreflightError::NetDrift));
    assert_eq!(spawn_preflight(true, true, "off", &off, Some((false, true))), Err(PreflightError::PlanNetDrift));
    assert_eq!(spawn_preflight(true, true, "off", &off, Some((true, false))), Err(PreflightError::PlanLostProcessGroup));
    assert_eq!(spawn_preflight(true, true, "ask", &NetMode::Ask, Some((false, true))), Ok(()));
    assert_eq!(
        PreflightError::NetDrift.message(),
        "production net drift (fail-closed, no agent execution)"
    );
}

#[test]
fn mapping_lists_name_each_capability_once() {
    let off = NetMode::Off;
    for (landlock, seccomp) in [(true, true), (true, false), (false, true), (false, false)] {
        for tier in [None, Some(Tier::Full), Some(Tier::FsOnly), Some(Tier::Seccomp)] {
            let m = prod_tier_mapping(tier, &off, &linux_probe(landlock, seccomp));
            for list in [&m.mandatory, &m.enforced, &m.unsupported] {
                for (i, a) in list.iter().enumerate() {
                    assert!(!list[i + 1..].contains(a));
                }
            }
            for c in SecurityCapability::all() {
                assert!(m.enforced.contains(&c) != m.unsupported.contains(&c));
            }
        }
    }
}
