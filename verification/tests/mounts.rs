use vetto::linux::mounts::{
    after_hidepid_mount, after_plain_mount, agent_state_paths, hidepid_unsupported, mask_kind,
    sensitive_proc_paths, sibling_report_dirs, MaskKind, ProcStep, ProcVisibility,
    DEV_SHM_MOUNT_OPTIONS, DEV_SHM_SIZE_BYTES, EINVAL, ENOPROTOOPT, EOPNOTSUPP, MS_NODEV,
    MS_NOEXEC, MS_NOSUID, PROC_HIDE_PID_OPTIONS, TMP_MOUNT_OPTIONS, TMP_SIZE_BYTES,
};

#[test]
fn dev_shm_plan_is_bounded_and_non_executable() {
    assert_eq!(DEV_SHM_SIZE_BYTES, 64 * 1024 * 1024);
    assert!(DEV_SHM_MOUNT_OPTIONS.contains("size=67108864"));
    assert!(DEV_SHM_MOUNT_OPTIONS.contains("mode=1777"));
    assert_ne!(MS_NOSUID | MS_NODEV | MS_NOEXEC, 0);
}

#[test]
fn tmp_plan_is_bounded() {
    assert_eq!(TMP_SIZE_BYTES, 64 * 1024 * 1024);
    assert!(TMP_MOUNT_OPTIONS.contains("size=67108864"));
    assert!(TMP_MOUNT_OPTIONS.contains("mode=1777"));
}

#[test]
fn proc_plan_prefers_hidepid_and_has_explicit_fallback_state() {
    assert_eq!(PROC_HIDE_PID_OPTIONS, "hidepid=2");
    assert_ne!(MS_NOSUID | MS_NODEV | MS_NOEXEC, 0);
    assert_ne!(ProcVisibility::HidePid, ProcVisibility::Fallback);
    assert!(hidepid_unsupported(Some(libc::EINVAL)));
    assert!(hidepid_unsupported(Some(libc::ENOPROTOOPT)));
    assert!(hidepid_unsupported(Some(libc::EOPNOTSUPP)));
    assert!(!hidepid_unsupported(Some(libc::EPERM)));
}

#[test]
fn errno_constants_match_the_platform() {
    assert_eq!(EINVAL, libc::EINVAL);
    assert_eq!(ENOPROTOOPT, libc::ENOPROTOOPT);
    assert_eq!(EOPNOTSUPP, libc::EOPNOTSUPP);
    assert_eq!(MS_NOSUID, libc::MS_NOSUID as u64);
    assert_eq!(MS_NODEV, libc::MS_NODEV as u64);
    assert_eq!(MS_NOEXEC, libc::MS_NOEXEC as u64);
    assert!(!hidepid_unsupported(None));
}

#[test]
fn proc_mount_steps() {
    assert_eq!(after_hidepid_mount(Ok(())), ProcStep::Done(ProcVisibility::HidePid));
    assert_eq!(
        after_hidepid_mount(Err(("bad option".to_string(), Some(EINVAL)))),
        ProcStep::RetryWithoutHidepid
    );
    assert_eq!(
        after_hidepid_mount(Err(("denied".to_string(), Some(libc::EPERM)))),
        ProcStep::Fail("denied".to_string())
    );
    assert_eq!(after_plain_mount("a", Ok(())), Ok(ProcVisibility::Fallback));
    assert_eq!(
        after_plain_mount("first", Err("second".to_string())),
        Err("proc hidepid unsupported and fallback mount failed: first; second".to_string())
    );
}

#[test]
fn masks_follow_the_path_kind() {
    assert_eq!(mask_kind(false, true), None);
    assert_eq!(mask_kind(true, true), Some(MaskKind::EmptyTmpfs));
    assert_eq!(mask_kind(true, false), Some(MaskKind::DevNull));
    let procs = sensitive_proc_paths();
    assert_eq!(procs.len(), 7);
    assert_eq!(procs[0], ("/proc/kcore".to_string(), MaskKind::DevNull));
    assert_eq!(procs[6], ("/proc/asound".to_string(), MaskKind::EmptyTmpfs));
}

#[test]
fn other_agents_state_is_listed() {
    let subs = [".agent-a/sessions", ".agent-b", ".config/Editor", ".local/share/editor-server"];
    let paths = agent_state_paths("/home/u", &subs);
    assert_eq!(paths.len(), 4);
    assert_eq!(paths[0], "/home/u/.agent-a/sessions");
    assert_eq!(paths[3], "/home/u/.local/share/editor-server");
    assert!(agent_state_paths("/home/u", &[]).is_empty());
    let names = vec!["alpha".to_string(), "beta".to_string(), "gamma".to_string()];
    assert_eq!(
        sibling_report_dirs(&names, "beta"),
        vec!["alpha".to_string(), "gamma".to_string()]
    );
}
