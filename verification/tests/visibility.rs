use vetto::linux::visibility::collect_subtree;
use vetto::linux::visibility::{
    fd_access_from_fdinfo, lifecycle_token, poll_interval_ms, scan_process_fds,
    start_time_from_stat, FdEntry, FileAccess, InvalidationToken, LifecycleToken, PathCache,
    ACTIVE_POLL_INTERVAL_MS, IDLE_AFTER_MS, IDLE_POLL_INTERVAL_MS, LONG_IDLE_AFTER_MS,
    LONG_IDLE_POLL_INTERVAL_MS, MAX_PATH_CACHE_ENTRIES,
};

#[test]
fn poller_adapts_after_idle_windows() {
    assert_eq!(poll_interval_ms(0), ACTIVE_POLL_INTERVAL_MS);
    assert_eq!(poll_interval_ms(IDLE_AFTER_MS), IDLE_POLL_INTERVAL_MS);
    assert_eq!(poll_interval_ms(LONG_IDLE_AFTER_MS), LONG_IDLE_POLL_INTERVAL_MS);
}

#[test]
fn path_cache_is_bounded_lru_and_explicitly_invalidatable() {
    let process = LifecycleToken {
        pid: 7,
        start_time: 11,
    };
    let mut cache = PathCache::new(2);
    let first = InvalidationToken { process, fd: 1 };
    let second = InvalidationToken { process, fd: 2 };
    let third = InvalidationToken { process, fd: 3 };

    assert!(cache.observe(first, "/tmp/a"));
    assert!(!cache.observe(first, "/tmp/a"));
    assert!(cache.observe(first, "/tmp/b"));
    assert!(cache.observe(second, "/tmp/c"));
    assert!(cache.observe(third, "/tmp/d"));
    assert_eq!(cache.capacity(), 2);
    assert!(cache.len() <= cache.capacity());
    for _ in 0..128 {
        assert!(!cache.observe(third, "/tmp/d"));
    }
    assert!(cache.lru_len() <= cache.capacity().saturating_mul(2).max(64));

    cache.invalidate(third);
    assert!(!cache.contains(third));
    cache.invalidate_process(process);
    assert!(cache.is_empty());
}

#[test]
fn capacity_is_clamped() {
    assert_eq!(PathCache::new(0).capacity(), 1);
    assert_eq!(PathCache::new(usize::MAX).capacity(), MAX_PATH_CACHE_ENTRIES);
    assert_eq!(PathCache::default().capacity(), MAX_PATH_CACHE_ENTRIES);
}

#[test]
fn eviction_drops_the_least_recently_observed() {
    let p = LifecycleToken { pid: 1, start_time: 2 };
    let a = InvalidationToken { process: p, fd: 1 };
    let b = InvalidationToken { process: p, fd: 2 };
    let c = InvalidationToken { process: p, fd: 3 };
    let mut cache = PathCache::new(2);
    cache.observe(a, "/a");
    cache.observe(b, "/b");
    cache.observe(a, "/a");
    cache.observe(c, "/c");
    assert!(cache.contains(a));
    assert!(!cache.contains(b));
    assert!(cache.contains(c));
}

#[test]
fn reused_pid_is_a_new_process() {
    let old = LifecycleToken { pid: 9, start_time: 100 };
    let new = LifecycleToken { pid: 9, start_time: 200 };
    let mut cache = PathCache::new(8);
    cache.observe(InvalidationToken { process: old, fd: 3 }, "/secret");
    assert!(cache.observe(InvalidationToken { process: new, fd: 3 }, "/secret"));
    cache.invalidate_process(old);
    assert!(cache.contains(InvalidationToken { process: new, fd: 3 }));
    assert_eq!(cache.len(), 1);
}

#[test]
fn start_time_is_field_twenty_two() {
    let stat = "4242 (my (odd) cmd) S 1 4242 4242 0 -1 4194304 100 0 0 0 1 2 0 0 20 0 1 0 987654 0 0";
    assert_eq!(start_time_from_stat(stat), Some(987654));
    assert_eq!(start_time_from_stat("4242 (x) S 1"), None);
    assert_eq!(start_time_from_stat("no paren"), None);
    assert_eq!(
        lifecycle_token(4242, Some(stat)),
        Some(LifecycleToken { pid: 4242, start_time: 987654 })
    );
    assert_eq!(lifecycle_token(4242, None), None);
}

#[test]
fn fdinfo_flags_give_the_access_mode() {
    assert_eq!(fd_access_from_fdinfo(Some("pos:\t0\nflags:\t0100000\nmnt_id:\t1\n")), FileAccess::Read);
    assert_eq!(fd_access_from_fdinfo(Some("pos:\t0\nflags:\t02100001\n")), FileAccess::Write);
    assert_eq!(fd_access_from_fdinfo(Some("flags:\t02\n")), FileAccess::Write);
    assert_eq!(fd_access_from_fdinfo(Some("flags:\t03\n")), FileAccess::Unknown);
    assert_eq!(fd_access_from_fdinfo(Some("flags:\t9\n")), FileAccess::Unknown);
    assert_eq!(fd_access_from_fdinfo(Some("pos:\t0\n")), FileAccess::Unknown);
    assert_eq!(fd_access_from_fdinfo(None), FileAccess::Unknown);
}

fn entry(name: &str, target: Option<&str>, fdinfo: Option<&str>) -> FdEntry {
    FdEntry {
        name: name.to_string(),
        target: target.map(str::to_string),
        fdinfo: fdinfo.map(str::to_string),
    }
}

#[test]
fn scan_reports_changed_user_visible_descriptors() {
    let process = LifecycleToken { pid: 5, start_time: 6 };
    let mut cache = PathCache::new(16);
    let entries = vec![
        entry("0", Some("/dev/null"), None),
        entry("1", Some("pipe:[123]"), None),
        entry("3", Some("/home/u/notes.txt"), Some("flags:\t0100000\n")),
        entry("x", Some("/ignored"), None),
        entry("4", None, None),
    ];
    let obs = scan_process_fds(5, process, "cat", &entries, &mut cache);
    assert_eq!(obs.len(), 1);
    assert_eq!(obs[0].fd, 3);
    assert_eq!(obs[0].path, "/home/u/notes.txt");
    assert_eq!(obs[0].access, FileAccess::Read);
    assert_eq!(obs[0].comm, "cat");
    assert_eq!(obs[0].pid, 5);
    let again = scan_process_fds(5, process, "cat", &entries, &mut cache);
    assert!(again.is_empty());
}

#[test]
fn scan_stops_at_the_report_limit() {
    let process = LifecycleToken { pid: 5, start_time: 6 };
    let mut cache = PathCache::new(1000);
    let mut entries = Vec::new();
    for i in 0..250 {
        entries.push(entry(&i.to_string(), Some(&format!("/f/{i}")), None));
    }
    let obs = scan_process_fds(5, process, "x", &entries, &mut cache);
    assert_eq!(obs.len(), 200);
    assert_eq!(cache.len(), 201);
}

#[test]
fn subtree_is_collected_breadth_first() {
    // (pid, ppid) as /proc lists them.
    let links = vec![(1, 0), (10, 1), (20, 10), (21, 10), (30, 20), (99, 5), (11, 1)];
    assert_eq!(collect_subtree(&[10], &links), vec![10, 20, 21, 30]);
    assert_eq!(collect_subtree(&[1], &links), vec![1, 10, 11, 20, 21, 30]);
    assert_eq!(collect_subtree(&[42], &links), vec![42]);
    assert_eq!(collect_subtree(&[], &links), Vec::<u32>::new());
    // A pid that reappears under another parent is collected once.
    let dup = vec![(2, 1), (3, 1), (2, 3)];
    assert_eq!(collect_subtree(&[1], &dup), vec![1, 2, 3]);
}
