use vetto::linux::namespaces::userns_knobs_look_enabled;
use vetto::linux::vfs_overlays::{
    get_dangerous_unix_sockets, mandatory_secret_paths, skippable_mask_error,
};

#[test]
fn test_get_dangerous_unix_sockets_contains_standard_sockets() {
    let uid = 1000u32;
    let sockets = get_dangerous_unix_sockets(uid, None, None, None);
    assert!(sockets.contains(&"/var/run/docker.sock".to_string()));
    assert!(sockets.contains(&"/run/docker.sock".to_string()));
    assert!(sockets.contains(&"/run/podman/podman.sock".to_string()));
    assert!(sockets.contains(&format!("/run/user/{uid}/docker.sock")));
    assert!(sockets.contains(&format!("/run/user/{uid}/podman/podman.sock")));
    assert!(sockets.contains(&format!("/run/user/{uid}/gnupg/S.gpg-agent")));
    assert!(sockets.contains(&format!("/run/user/{uid}/gnupg/S.gpg-agent.ssh")));
}

#[test]
fn test_dangerous_unix_sockets_includes_ssh_auth_sock() {
    let fake_sock = "/tmp/test-vetto-fake-ssh-agent.sock";
    let sockets = get_dangerous_unix_sockets(1000, None, None, Some(fake_sock));
    assert!(sockets.contains(&fake_sock.to_string()));
}

#[test]
fn test_dangerous_unix_sockets_without_ssh_auth_sock() {
    let sockets = get_dangerous_unix_sockets(1000, None, None, None);
    assert!(!sockets.contains(&"/tmp/test-vetto-fake-ssh-agent.sock".to_string()));
    assert_eq!(sockets.len(), 7);
    let empty = get_dangerous_unix_sockets(1000, None, None, Some(""));
    assert_eq!(empty.len(), 7);
}

#[test]
fn sudo_and_env_uids_add_their_sockets_once() {
    let sockets = get_dangerous_unix_sockets(1000, Some("0"), Some("1000"), None);
    assert_eq!(sockets.len(), 11);
    assert!(sockets.contains(&"/run/user/0/docker.sock".to_string()));
    let dup = get_dangerous_unix_sockets(1000, Some("1000"), Some(""), Some("/run/docker.sock"));
    assert_eq!(dup.len(), 7);
}

#[test]
fn mandatory_secrets_are_listed() {
    assert_eq!(
        mandatory_secret_paths("/home/u", Some("/work/p")),
        vec![
            "/home/u/.ssh".to_string(),
            "/home/u/.aws".to_string(),
            "/home/u/.gnupg".to_string(),
            "/home/u/.env".to_string(),
            "/work/p/.env".to_string(),
        ]
    );
    assert_eq!(mandatory_secret_paths("/home/u", None).len(), 4);
}

#[test]
fn only_unprivileged_permission_errors_are_skipped() {
    assert!(skippable_mask_error(1000, "mount: Operation not permitted (os error 1)"));
    assert!(skippable_mask_error(1000, "Permission denied"));
    assert!(!skippable_mask_error(0, "Permission denied"));
    assert!(!skippable_mask_error(1000, "No such file or directory"));
}

#[test]
fn userns_knobs() {
    assert!(userns_knobs_look_enabled(Some("1\n"), Some("63000\n")));
    assert!(!userns_knobs_look_enabled(Some("0\n"), Some("63000\n")));
    assert!(!userns_knobs_look_enabled(None, Some("0")));
    assert!(userns_knobs_look_enabled(None, None));
    assert!(userns_knobs_look_enabled(Some("garbage"), Some("x")));
}

#[test]
fn id_maps_map_root_to_the_outer_id() {
    use_id_map();
}

fn use_id_map() {
    assert_eq!(vetto::linux::namespaces::id_map_line(1000), "0 1000 1\n");
    assert_eq!(vetto::linux::namespaces::id_map_line(0), "0 0 1\n");
    assert_eq!(vetto::linux::namespaces::CLONE_NEWUSER, libc::CLONE_NEWUSER);
    assert_eq!(vetto::linux::namespaces::CLONE_NEWNET, libc::CLONE_NEWNET);
    assert_eq!(vetto::linux::namespaces::CLONE_NEWNS, libc::CLONE_NEWNS);
    assert_eq!(vetto::linux::namespaces::CLONE_NEWPID, libc::CLONE_NEWPID);
    assert_eq!(vetto::linux::namespaces::CLONE_NEWIPC, libc::CLONE_NEWIPC);
}
