use vetto::linux::setup::{PlannedStep, SetupStep};
use vetto::macos::child::{
    child_keep_fds, macos_child_plan, seatbelt_choice, seatbelt_diagnostic_profile,
    seatbelt_failure_message, SeatbeltChoice, StdioKind,
};

fn steps(plan: &[PlannedStep]) -> Vec<(SetupStep, Option<i32>)> {
    plan.iter().map(|p| (p.step, p.fail_code)).collect()
}

#[test]
fn kept_descriptors_follow_the_stdio_mode() {
    assert_eq!(child_keep_fds(9, StdioKind::Inherit), vec![9]);
    assert_eq!(child_keep_fds(9, StdioKind::Pty { slave_fd: 4 }), vec![9, 4]);
    assert_eq!(child_keep_fds(9, StdioKind::Captured { stdout_w: 5, stderr_w: 6 }), vec![9, 5, 6]);
}

#[test]
fn pty_child_takes_a_new_session() {
    assert_eq!(
        steps(&macos_child_plan(StdioKind::Pty { slave_fd: 4 }, true)),
        vec![
            (SetupStep::CloseInheritedFds, None),
            (SetupStep::NewSession, Some(125)),
            (SetupStep::StdioSetup, Some(124)),
            (SetupStep::ApplyRlimits, None),
            (SetupStep::ChangeDir, Some(117)),
            (SetupStep::ApplySeatbelt, Some(120)),
            (SetupStep::SendReady, None),
            (SetupStep::CloseToStdio, None),
            (SetupStep::ExecAgent, Some(127)),
        ]
    );
}

#[test]
fn inherited_child_takes_a_private_process_group() {
    assert_eq!(
        steps(&macos_child_plan(StdioKind::Inherit, false)),
        vec![
            (SetupStep::CloseInheritedFds, None),
            (SetupStep::NewProcessGroup, Some(125)),
            (SetupStep::ApplyRlimits, None),
            (SetupStep::ApplySeatbelt, Some(120)),
            (SetupStep::SendReady, None),
            (SetupStep::CloseToStdio, None),
            (SetupStep::ExecAgent, Some(127)),
        ]
    );
}

#[test]
fn diagnostic_seatbelt_modes() {
    assert_eq!(
        seatbelt_diagnostic_profile("allow-all").as_deref(),
        Some("(version 1)\n(allow default)\n")
    );
    assert_eq!(
        seatbelt_diagnostic_profile("wb-socket").as_deref(),
        Some("(version 1)\n(deny network*)\n(allow system-socket)\n")
    );
    assert_eq!(seatbelt_diagnostic_profile("none"), None);
    assert_eq!(seatbelt_diagnostic_profile("strict"), None);
    assert_eq!(seatbelt_choice(Some("none")), SeatbeltChoice::Skip);
    assert_eq!(seatbelt_choice(None), SeatbeltChoice::Policy);
    assert_eq!(seatbelt_choice(Some("other")), SeatbeltChoice::Policy);
    assert_eq!(
        seatbelt_choice(Some("deny-net-only")),
        SeatbeltChoice::Diagnostic("(version 1)\n(deny network*)\n".to_string())
    );
    assert_eq!(seatbelt_failure_message(Some("wb-mach"), "boom"), "apply seatbelt (wb-mach): boom");
    assert_eq!(seatbelt_failure_message(None, "boom"), "apply seatbelt: boom");
}
