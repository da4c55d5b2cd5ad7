use vetto::linux::cgroup::{
    cgroup_plan, cgroup_root_candidates, effective_cgroup, parse_cpu_limit, parse_memory_limit,
    CgroupConfig, CgroupHandle, CpuLimit, MemoryLimit,
};

fn scaled(number: &str, shift: u32) -> Option<MemoryLimit> {
    Some(MemoryLimit::Scaled { number: number.to_string(), shift })
}

#[test]
fn memory_limits_read_number_and_unit() {
    assert_eq!(parse_memory_limit("2g"), scaled("2", 30));
    assert_eq!(parse_memory_limit("512M"), scaled("512", 20));
    assert_eq!(parse_memory_limit("0"), scaled("0", 0));
    assert_eq!(parse_memory_limit("max"), Some(MemoryLimit::Max));
    assert_eq!(parse_memory_limit("  MaX "), Some(MemoryLimit::Max));
    assert_eq!(parse_memory_limit(""), Some(MemoryLimit::Max));
    assert_eq!(parse_memory_limit("1024"), scaled("1024", 0));
    assert_eq!(parse_memory_limit("1.5 kib"), scaled("1.5", 10));
    assert_eq!(parse_memory_limit("3TB"), scaled("3", 40));
    assert_eq!(parse_memory_limit("4 B"), scaled("4", 0));
}

#[test]
fn bad_memory_limits_are_refused() {
    assert_eq!(parse_memory_limit("12 parsecs"), None);
    assert_eq!(parse_memory_limit("G"), None);
    assert_eq!(parse_memory_limit("1.2.3M"), None);
    assert_eq!(parse_memory_limit(".M"), None);
}

#[test]
fn cpu_limits_read_percent_raw_and_quota() {
    assert_eq!(parse_cpu_limit("50%"), Some(CpuLimit::Percent("50".into())));
    assert_eq!(parse_cpu_limit("200 %"), Some(CpuLimit::Percent("200".into())));
    assert_eq!(parse_cpu_limit("50000 100000"), Some(CpuLimit::Value("50000 100000".into())));
    assert_eq!(parse_cpu_limit("max"), Some(CpuLimit::Value("max 100000".into())));
    assert_eq!(parse_cpu_limit("25000"), Some(CpuLimit::Value("25000 100000".into())));
    assert_eq!(parse_cpu_limit("lots"), None);
}

#[test]
fn cpu_override_replaces_only_the_cpu_ceiling() {
    assert!(effective_cgroup(None, None).is_none());
    let only_cpu = effective_cgroup(None, Some("50%")).unwrap();
    assert_eq!(only_cpu.cpu_max.as_deref(), Some("50%"));
    assert!(only_cpu.memory_max.is_none());
    let cfg = CgroupConfig {
        memory_max: Some("1G".into()),
        swap_max: None,
        pids_max: Some("64".into()),
        cpu_max: Some("10%".into()),
    };
    let merged = effective_cgroup(Some(&cfg), Some("75%")).unwrap();
    assert_eq!(merged.memory_max.as_deref(), Some("1G"));
    assert_eq!(merged.pids_max.as_deref(), Some("64"));
    assert_eq!(merged.cpu_max.as_deref(), Some("75%"));
    let kept = effective_cgroup(Some(&cfg), None).unwrap();
    assert_eq!(kept, cfg);
    let plan = cgroup_plan(&cfg);
    assert_eq!(plan.memory_max, scaled("1", 30));
    assert!(plan.swap_max.is_none());
    assert_eq!(plan.cpu_max, Some(CpuLimit::Percent("10".into())));
}

#[test]
fn root_candidates_in_order() {
    let c = cgroup_root_candidates(1000, Some("/run/user/1000"));
    assert_eq!(
        c,
        vec![
            "/sys/fs/cgroup/user.slice/user-1000.slice/user@1000.service".to_string(),
            "/sys/fs/cgroup/user.slice/user-1000.slice".to_string(),
            "/sys/fs/cgroup".to_string(),
            "/run/user/1000/cgroup".to_string(),
        ]
    );
    assert_eq!(cgroup_root_candidates(0, None).len(), 3);
}

#[test]
fn cleanup_is_claimed_once() {
    let mut h = CgroupHandle::new("/sys/fs/cgroup/vetto-1-2".to_string());
    assert_eq!(h.path(), "/sys/fs/cgroup/vetto-1-2");
    assert!(h.claim_cleanup());
    assert!(!h.claim_cleanup());
}
