use vetto::linux::landlock::{
    handled_fs_mask, handled_net_mask, handled_scope_mask, net_port_rules, prepare_ruleset,
    prepare_ruleset_for_abi, read_only_rights, ruleset_attr_size_for_abi, write_rights,
    LandlockError, PathFacts, EXECUTE, IOCTL_DEV, LANDLOCK_ACCESS_NET_BIND_TCP,
    LANDLOCK_ACCESS_NET_CONNECT_TCP, LANDLOCK_SCOPE_ABSTRACT_UNIX_SOCKET, LANDLOCK_SCOPE_SIGNAL,
    READ_DIR, READ_FILE, REFER, TRUNCATE, WRITE_FILE,
};

fn facts(path: &str, exists: bool, is_dir: bool) -> PathFacts {
    PathFacts { path: path.to_string(), exists, is_dir }
}

#[test]
fn handled_masks_scale_with_abi() {
    let m1 = handled_fs_mask(1);
    let m2 = handled_fs_mask(2);
    let m3 = handled_fs_mask(3);
    let m4 = handled_fs_mask(4);
    let m5 = handled_fs_mask(5);
    let m6 = handled_fs_mask(6);

    assert_eq!(m1 & REFER, 0);
    assert_eq!(m1 & TRUNCATE, 0);
    assert_eq!(m1 & IOCTL_DEV, 0);

    assert_ne!(m2 & REFER, 0);
    assert_eq!(m2 & TRUNCATE, 0);
    assert_eq!(m2 & IOCTL_DEV, 0);

    assert_ne!(m3 & TRUNCATE, 0);
    assert_eq!(m3 & IOCTL_DEV, 0);

    assert_ne!(m4 & TRUNCATE, 0);
    assert_eq!(m4 & IOCTL_DEV, 0);

    assert_ne!(m5 & IOCTL_DEV, 0);
    assert_ne!(m6 & IOCTL_DEV, 0);

    assert_eq!(handled_net_mask(1), 0);
    assert_eq!(handled_net_mask(3), 0);
    assert_eq!(
        handled_net_mask(4),
        LANDLOCK_ACCESS_NET_BIND_TCP | LANDLOCK_ACCESS_NET_CONNECT_TCP
    );
    assert_eq!(
        handled_net_mask(6),
        LANDLOCK_ACCESS_NET_BIND_TCP | LANDLOCK_ACCESS_NET_CONNECT_TCP
    );

    assert_eq!(handled_scope_mask(1), 0);
    assert_eq!(handled_scope_mask(5), 0);
    assert_eq!(
        handled_scope_mask(6),
        LANDLOCK_SCOPE_ABSTRACT_UNIX_SOCKET | LANDLOCK_SCOPE_SIGNAL
    );
}

#[test]
fn write_rights_include_ioctl_dev_on_abi_5_plus() {
    assert_eq!(write_rights(1) & IOCTL_DEV, 0);
    assert_eq!(write_rights(4) & IOCTL_DEV, 0);
    assert_ne!(write_rights(5) & IOCTL_DEV, 0);
    assert_ne!(write_rights(6) & IOCTL_DEV, 0);
}

#[test]
fn prepare_ruleset_handles_all_abis() {
    let path = facts("/tmp/vetto_landlock_test_dir", true, true);
    for abi in [1, 2, 3, 4, 5, 6] {
        let prepared = prepare_ruleset_for_abi(abi, std::slice::from_ref(&path), &[], false);
        assert_eq!(prepared.abi(), abi);
        assert!(!prepared.is_empty());
    }
}

#[test]
fn struct_sizes_per_abi() {
    assert_eq!(ruleset_attr_size_for_abi(1), 8);
    assert_eq!(ruleset_attr_size_for_abi(2), 8);
    assert_eq!(ruleset_attr_size_for_abi(3), 8);
    assert_eq!(ruleset_attr_size_for_abi(4), 16);
    assert_eq!(ruleset_attr_size_for_abi(5), 16);
    assert_eq!(ruleset_attr_size_for_abi(6), 24);
    assert_eq!(ruleset_attr_size_for_abi(7), 24);
}

#[test]
fn prepared_rules_merge_sort_and_mask_files() {
    let read = vec![
        facts("/usr", true, true),
        facts("/etc/hosts", true, false),
        facts("/missing", false, true),
        facts("/proj", true, true),
    ];
    let write = vec![facts("/proj", true, true), facts("/tmp", true, true)];
    let prepared = prepare_ruleset_for_abi(3, &write, &read, false);
    let rules = prepared.rules();
    let paths: Vec<&str> = rules.iter().map(|r| r.path.as_str()).collect();
    assert_eq!(paths, vec!["/etc/hosts", "/proj", "/tmp", "/usr"]);
    assert_eq!(rules[0].allowed_access, READ_FILE | EXECUTE);
    assert_eq!(rules[1].allowed_access, write_rights(3) | read_only_rights(true, 3));
    assert_eq!(rules[2].allowed_access, write_rights(3));
    assert_eq!(rules[3].allowed_access, read_only_rights(true, 3));
    assert_eq!(prepared.len(), 4);
}

#[test]
fn strip_read_on_write_drops_file_reads_from_write_roots() {
    let write = vec![facts("/proj", true, true)];
    let prepared = prepare_ruleset_for_abi(5, &write, &[], true);
    assert_eq!(prepared.rules()[0].allowed_access & READ_FILE, 0);
    assert_ne!(prepared.rules()[0].allowed_access & WRITE_FILE, 0);
    assert_ne!(prepared.rules()[0].allowed_access & READ_DIR, 0);
}

#[test]
fn missing_landlock_is_refused() {
    assert_eq!(prepare_ruleset(None, &[], &[], false).unwrap_err(), LandlockError::Unsupported);
    assert_eq!(
        prepare_ruleset(None, &[], &[], false).unwrap_err().message(),
        "kernel does not support Landlock (needs >= 5.13)"
    );
    assert_eq!(prepare_ruleset(Some(2), &[], &[], false).unwrap().abi(), 2);
}

#[test]
fn port_rules_need_abi_four() {
    assert!(net_port_rules(3, &[80], &[443]).is_empty());
    let rules = net_port_rules(4, &[80], &[443, 8443]);
    assert_eq!(rules.len(), 3);
    assert_eq!(rules[0].allowed_access, LANDLOCK_ACCESS_NET_BIND_TCP);
    assert_eq!(rules[0].port, 80);
    assert_eq!(rules[2].allowed_access, LANDLOCK_ACCESS_NET_CONNECT_TCP);
    assert_eq!(rules[2].port, 8443);
}
