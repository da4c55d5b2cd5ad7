use vetto::linux::limits::parse_io_priority;
use vetto::linux::limits::{ipc_rlimit_plan, rlimit_plan, Resource, ResourceLimits};

#[test]
fn policy_fields_map_to_all_five_resources() {
    let limits = ResourceLimits {
        cpu_seconds: Some(60),
        address_space_bytes: Some(64 * 1024 * 1024),
        processes: Some(32),
        open_files: Some(128),
        file_size_bytes: Some(1024 * 1024),
        ..Default::default()
    };
    assert_eq!(limits.cpu_seconds, Some(60));
    assert_eq!(limits.address_space_bytes, Some(64 * 1024 * 1024));
    assert_eq!(limits.processes, Some(32));
    assert_eq!(limits.open_files, Some(128));
    assert_eq!(limits.file_size_bytes, Some(1024 * 1024));
    assert_eq!(rlimit_plan(&limits).len(), 5);
}

#[test]
fn unset_limits_are_noops() {
    assert!(rlimit_plan(&ResourceLimits::default()).is_empty());
}

#[test]
fn ipc_limits_noops_when_none() {
    assert!(ipc_rlimit_plan(None, None).is_empty());
}

#[test]
fn ipc_limits_keep_order() {
    let plan = ipc_rlimit_plan(Some(10), Some(20));
    assert_eq!(plan.len(), 2);
    assert_eq!(plan[0].1, 10);
    assert_eq!(plan[1].1, 20);
    let only = rlimit_plan(&ResourceLimits { open_files: Some(7), ..Default::default() });
    assert_eq!(only.len(), 1);
    assert!(matches!(only[0].0, Resource::OpenFiles));
    assert_eq!(only[0].1, 7);
}

#[test]
fn io_priorities_are_encoded_for_ioprio_set() {
    assert_eq!(parse_io_priority("idle"), Ok(3 << 13));
    assert_eq!(parse_io_priority(" Best-Effort "), Ok((2 << 13) | 4));
    assert_eq!(parse_io_priority("be:6"), Ok((2 << 13) | 6));
    assert_eq!(parse_io_priority("rt:99"), Ok((1 << 13) | 7));
    assert_eq!(parse_io_priority("realtime:-3"), Ok(1 << 13));
    assert_eq!(parse_io_priority("be:x"), Ok((2 << 13) | 4));
    assert_eq!(parse_io_priority("none"), Ok(0));
    assert_eq!(parse_io_priority("RT"), Ok((1 << 13) | 4));
    assert_eq!(
        parse_io_priority("Fast"),
        Err("invalid io_priority spec 'fast'".to_string())
    );
}
