use vetto::linux::observe_seccomp::{
    enforcement_allows, is_supported_system_path, is_syscall_allowed, match_syscall_name,
    PrivilegedSyscalls,
};

fn table() -> PrivilegedSyscalls {
    PrivilegedSyscalls {
        mount: libc::SYS_mount as i32,
        umount2: libc::SYS_umount2 as i32,
        pivot_root: libc::SYS_pivot_root as i32,
        chroot: libc::SYS_chroot as i32,
        syslog: libc::SYS_syslog as i32,
    }
}

#[test]
fn names_match_their_calls_only() {
    let t = table();
    assert!(match_syscall_name(&t, libc::SYS_mount as i32, "mount"));
    assert!(match_syscall_name(&t, libc::SYS_umount2 as i32, "umount"));
    assert!(match_syscall_name(&t, libc::SYS_umount2 as i32, "umount2"));
    assert!(match_syscall_name(&t, libc::SYS_pivot_root as i32, "pivot_root"));
    assert!(match_syscall_name(&t, libc::SYS_chroot as i32, "chroot"));
    assert!(match_syscall_name(&t, libc::SYS_syslog as i32, "syslog"));
    assert!(!match_syscall_name(&t, libc::SYS_chroot as i32, "mount"));
    assert!(!match_syscall_name(&t, libc::SYS_mount as i32, "Mount"));
    assert!(!match_syscall_name(&t, libc::SYS_mount as i32, "reboot"));
}

#[test]
fn allow_list_admits_numbers_and_names() {
    let t = table();
    let list = vec!["42".to_string(), "chroot".to_string(), "x".to_string()];
    assert!(is_syscall_allowed(&t, 42, &list));
    assert!(is_syscall_allowed(&t, libc::SYS_chroot as i32, &list));
    assert!(!is_syscall_allowed(&t, libc::SYS_mount as i32, &list));
    assert!(!is_syscall_allowed(&t, 43, &list));
    assert!(!is_syscall_allowed(&t, 42, &[]));
    let signed = vec!["+7".to_string(), "-1".to_string()];
    assert!(is_syscall_allowed(&t, 7, &signed));
    assert!(is_syscall_allowed(&t, -1, &signed));
}

#[test]
fn default_allow_admits_everything() {
    let t = table();
    assert!(enforcement_allows(&t, 999, &Some("allow".to_string()), &[]));
    assert!(!enforcement_allows(&t, 999, &Some("deny".to_string()), &[]));
    assert!(!enforcement_allows(&t, 999, &None, &[]));
    assert!(enforcement_allows(&t, 999, &None, &["999".to_string()]));
}

#[test]
fn substitution_targets_are_exact() {
    assert!(is_supported_system_path("/etc/hostname"));
    assert!(is_supported_system_path("/proc/sys/kernel/core_pattern"));
    assert!(is_supported_system_path("/proc/version_signature"));
    assert!(!is_supported_system_path("/etc/hostname/"));
    assert!(!is_supported_system_path("/etc/shadow"));
    assert!(!is_supported_system_path(""));
}
