use vetto::macvm::exec::{remote_command_string, session_ssh_argv, shell_quote, ssh_base_argv};
use vetto::macvm::sync::{format_marker, parse_marker, pull_argv, push_argv, ssh_cmd_string, MARKER_NAME};
use vetto::macvm::vm::{parse_status_line, start_argv, status_argv, stop_argv};
use vetto::macvm::{ensure_inside, MacVmConfig, DEFAULT_HELPER};

fn cfg() -> MacVmConfig {
    MacVmConfig {
        ssh_target: "vetto@192.168.64.2".into(),
        ssh_key: None,
        helper: DEFAULT_HELPER.into(),
        ip_wait_secs: 120,
    }
}

#[test]
fn quote_safe_passthrough() {
    assert_eq!(shell_quote("abcXYZ-_.:/=+@,09"), "abcXYZ-_.:/=+@,09");
}

#[test]
fn quote_spaces_and_metachars() {
    assert_eq!(shell_quote("a b"), "'a b'");
    assert_eq!(shell_quote("a$b"), "'a$b'");
    assert_eq!(shell_quote("it's"), "'it'\\''s'");
    assert_eq!(shell_quote(""), "''");
}

#[test]
fn base_argv_shape() {
    let c = cfg();
    let argv = ssh_base_argv(&c, 5, &c.ssh_target);
    assert_eq!(argv[0], "ssh");
    assert!(argv.contains(&"BatchMode=yes".to_string()));
    assert!(argv.contains(&"ConnectTimeout=5".to_string()));
    assert_eq!(argv.last().unwrap(), "vetto@192.168.64.2");
}

#[test]
fn base_argv_with_key() {
    let mut c = cfg();
    c.ssh_key = Some("/k".into());
    let argv = ssh_base_argv(&c, 5, &c.ssh_target);
    let i = argv.iter().position(|a| a == "-i").unwrap();
    assert_eq!(argv[i + 1], "/k");
}

#[test]
fn remote_command_exec_semantics() {
    let cmd = remote_command_string(&["/usr/local/bin/vetto".into(), "--".into(), "x".into()]);
    assert!(cmd.starts_with("cd /mnt/vetto-workspace && exec "));
    assert!(cmd.contains("/usr/local/bin/vetto"));
}

#[test]
fn session_argv_is_single_remote_string() {
    let c = cfg();
    let argv = session_ssh_argv(&c, &c.ssh_target, "default", "off", &["agent".into()]);
    assert_eq!(argv[0], "ssh");
    assert!(argv.last().unwrap().contains("exec"));
}

#[test]
fn ensure_inside_accepts_subtree() {
    let cwd = "/Users/u/proj";
    assert!(ensure_inside("/Users/u/proj/sub", cwd).is_ok());
    assert!(ensure_inside("/Users/u/proj", cwd).is_ok());
}

#[test]
fn ensure_inside_rejects_escape() {
    let err = ensure_inside("/etc", "/Users/u/proj").unwrap_err();
    assert!(err.contains("refusing to sync"), "{err:?}");
}

#[test]
fn ensure_inside_rejects_a_containing_project() {
    assert!(ensure_inside("/", "/Users/u/proj").is_err());
    assert!(ensure_inside("/Users/u", "/Users/u/proj").is_err());
    assert!(ensure_inside("/Users/u/projx", "/Users/u/proj").is_err());
}

#[test]
fn marker_round_trip() {
    let m = format_marker(42, 1_700_000_000);
    assert_eq!(parse_marker(&m).unwrap(), (42, 1_700_000_000));
}

#[test]
fn marker_malformed_fails_closed() {
    assert!(parse_marker("").is_err());
    assert!(parse_marker("v=1 files=abc stamp=1").is_err());
    assert!(parse_marker("v=2 files=1 stamp=1").is_err());
    assert!(parse_marker("files=1 stamp=1").is_err());
}

#[test]
fn push_argv_shape() {
    let c = cfg();
    let argv = push_argv(&c, "/Users/u/proj", &c.ssh_target);
    assert_eq!(argv[0], "rsync");
    assert!(argv.contains(&"-az".to_string()));
    assert!(argv.contains(&"--delete".to_string()));
    assert!(argv.last().unwrap().ends_with(":/mnt/vetto-workspace/"));
    assert!(argv.iter().any(|a| a.ends_with("/Users/u/proj/")));
}

#[test]
fn pull_argv_shape() {
    let c = cfg();
    let argv = pull_argv(&c, "/Users/u/proj", &c.ssh_target);
    assert_eq!(argv[0], "rsync");
    assert!(argv.contains(&MARKER_NAME.to_string()));
    assert!(argv.iter().any(|a| a.starts_with("vetto@")));
}

#[test]
fn ssh_cmd_no_key() {
    assert_eq!(
        ssh_cmd_string(&cfg()),
        "ssh -o BatchMode=yes -o ConnectTimeout=10"
    );
}

#[test]
fn ssh_cmd_with_key() {
    let mut c = cfg();
    c.ssh_key = Some("/home/u/.ssh/vm".into());
    assert!(ssh_cmd_string(&c).contains("-i /home/u/.ssh/vm"));
}

#[test]
fn parse_running_with_ip() {
    let s = parse_status_line("state=running ip=192.168.64.2\n").unwrap();
    assert!(s.running);
    assert_eq!(s.ip.as_deref(), Some("192.168.64.2"));
}

#[test]
fn parse_stopped_without_ip() {
    let s = parse_status_line("state=stopped").unwrap();
    assert!(!s.running);
    assert_eq!(s.ip, None);
    assert_eq!(s.state, "stopped");
}

#[test]
fn parse_malformed_fails_closed() {
    assert!(parse_status_line("").is_err());
    assert!(parse_status_line("running").is_err());
    assert!(parse_status_line("state=   ").is_err());
}

#[test]
fn argv_builders() {
    assert_eq!(status_argv("vetto-vz"), vec!["vetto-vz", "status"]);
    assert_eq!(start_argv("vetto-vz"), vec!["vetto-vz", "start"]);
    assert_eq!(stop_argv("vetto-vz"), vec!["vetto-vz", "stop"]);
}

#[test]
fn missing_target_fails_closed() {
    let cfg = MacVmConfig { helper: "x".to_string(), ..MacVmConfig::default() };
    let err = cfg.validate().unwrap_err().message();
    assert!(err.contains("ssh_target"), "{err:?}");
}

#[test]
fn zero_ip_wait_fails_closed() {
    let cfg = MacVmConfig {
        ssh_target: "vetto@1.2.3.4".to_string(),
        ip_wait_secs: 0,
        ..MacVmConfig::default()
    };
    let err = cfg.validate().unwrap_err().message();
    assert!(err.contains("ip_wait_secs"), "{err:?}");
}
