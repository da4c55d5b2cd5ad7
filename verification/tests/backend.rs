use vetto::backend::{Backend, BackendError, Host, NetMode};
use vetto::linux::{pick_tier, Probe, Tier, TierError};

fn probe(landlock: Option<u32>, userns: bool, seccomp: bool) -> Probe {
    Probe {
        kernel: "6.8.0".into(),
        landlock_abi: landlock,
        userns_available: userns,
        seccomp_filter_available: seccomp,
        seccomp_notify_available: true,
        audit_feed_readable: false,
    }
}

#[test]
fn tier_selection_fails_closed() {
    assert_eq!(pick_tier(&probe(None, true, true)), Err(TierError::NoLandlock));
    assert_eq!(pick_tier(&probe(Some(4), true, false)), Ok(Tier::Full));
    assert_eq!(pick_tier(&probe(Some(4), false, true)), Ok(Tier::FsOnly));
    assert_eq!(pick_tier(&probe(Some(4), false, false)), Err(TierError::NoTier));
    assert!(TierError::NoLandlock.message().contains("fail-closed"));
}

#[test]
fn backend_names_are_checked_before_detection() {
    let host = || Host::Linux(probe(Some(5), true, true));
    assert!(matches!(
        Backend::detect_with_backend(NetMode::Off, false, Some("wsl2"), host()),
        Err(BackendError::Wsl2OnlyOnWindows)
    ));
    assert!(matches!(
        Backend::detect_with_backend(NetMode::Off, false, Some("windows-sandbox"), host()),
        Err(BackendError::WinSandboxOnlyOnWindows)
    ));
    match Backend::detect_with_backend(NetMode::Off, false, Some("bogus"), host()) {
        Err(BackendError::UnknownBackend(n)) => assert_eq!(n, "bogus"),
        _ => panic!("unknown backend accepted"),
    }
    let b = Backend::detect_with_backend(NetMode::Off, true, Some("auto"), host()).unwrap();
    assert_eq!(b.tier(), Some(Tier::Full));
    assert_eq!(
        b.describe(),
        "linux tier=full (landlock ABI Some(5), userns=true, full-stack=true, seccomp-notify=true, audit-feed=false)"
    );
}

#[test]
fn detection_per_host() {
    let fs = Backend::detect(NetMode::Off, false, Host::Linux(probe(Some(1), false, true))).unwrap();
    assert_eq!(fs.tier(), Some(Tier::FsOnly));
    assert!(matches!(
        Backend::detect(NetMode::Off, false, Host::Linux(probe(None, false, true))),
        Err(BackendError::Tier(TierError::NoLandlock))
    ));
    let mac = Backend::detect(NetMode::Off, false, Host::Macos).unwrap();
    assert_eq!(mac.tier(), None);
    assert_eq!(mac.describe(), "macos seatbelt (deprecated sandbox-exec, works today)");
    assert!(matches!(
        Backend::detect(NetMode::Off, false, Host::Unsupported),
        Err(BackendError::UnsupportedPlatform)
    ));
    assert_eq!(Tier::FsOnly.label(), "fs-only");
}

#[test]
fn backend_errors_explain_themselves() {
    let m = BackendError::UnknownBackend("bogus".to_string()).message();
    assert!(m.starts_with("unknown backend 'bogus'; valid backends: auto, process, wsl2, win-sandbox"));
    assert!(BackendError::Wsl2OnlyOnWindows.message().starts_with("--backend wsl2 is only available on Windows"));
    assert!(BackendError::WinSandboxOnlyOnWindows.message().starts_with("--backend win-sandbox is only available on Windows"));
    assert_eq!(BackendError::Tier(TierError::NoTier).message(), TierError::NoTier.message());
}

#[test]
fn detection_keeps_the_network_mode() {
    let b = Backend::detect(NetMode::Ask, false, Host::Linux(probe(Some(5), true, true))).unwrap();
    match b {
        Backend::Linux(s) => assert!(matches!(s.net, NetMode::Ask)),
        _ => panic!("linux host gave another backend"),
    }
    let m = Backend::detect(NetMode::Allowlist(vec!["a.com".to_string()]), false, Host::Macos).unwrap();
    match m {
        Backend::Macos(s) => assert!(matches!(&s.net, NetMode::Allowlist(d) if d == &vec!["a.com".to_string()])),
        _ => panic!("macos host gave another backend"),
    }
}
