use vetto::linux::proctrack::cmdline_args;
use vetto::linux::proctrack::{ppid_from_status, root_settled, state_letter};

#[test]
fn ppid_is_parsed_from_proc_status_body() {
    let status = "Name:\tsleep\nUmask:\t0022\nState:\tS (sleeping)\nTgid:\t4242\n\
                  Ngid:\t0\nPid:\t4242\nPPid:\t1337\nTracerPid:\t0\nUid:\t1000\t1000\t1000\t1000\n";
    assert_eq!(ppid_from_status(status), Some(1337));
}

#[test]
fn ppid_of_pid_one_is_parsed() {
    let status = "Name:\tsystemd\nState:\tS (sleeping)\nPPid:\t0\n";
    assert_eq!(ppid_from_status(status), Some(0));
}

#[test]
fn missing_or_malformed_ppid_is_none() {
    assert_eq!(ppid_from_status("Name:\tx\nState:\tR (running)\n"), None);
    assert_eq!(ppid_from_status(""), None);
    assert_eq!(ppid_from_status("PPid:\tnot-a-number\n"), None);
    assert_eq!(ppid_from_status("PPidTracer:\t5\n"), None);
}

#[test]
fn indented_ppid_line_is_still_found() {
    let status = "Name:\tsleep\n  PPid:  99\n";
    assert_eq!(ppid_from_status(status), Some(99));
}

#[test]
fn state_letter_reads_the_first_state_char() {
    assert_eq!(state_letter("State:\tZ (zombie)\n"), Some('Z'));
    assert_eq!(state_letter("State:\tS (sleeping)\n"), Some('S'));
    assert_eq!(state_letter("Name:\tx\n"), None);
}

#[test]
fn root_settles_when_gone_zombie_or_reparented() {
    assert!(root_settled(None, 10));
    assert!(root_settled(Some("State:\tZ (zombie)\nPPid:\t10\n"), 10));
    assert!(root_settled(Some("State:\tS (sleeping)\nPPid:\t1\n"), 10));
    assert!(!root_settled(Some("State:\tS (sleeping)\nPPid:\t10\n"), 10));
}

#[test]
fn cmdline_is_split_on_nul_without_empty_pieces() {
    assert_eq!(
        cmdline_args("node\0--inspect\0\0app.js\0"),
        vec!["node".to_string(), "--inspect".to_string(), "app.js".to_string()]
    );
    assert!(cmdline_args("").is_empty());
}
