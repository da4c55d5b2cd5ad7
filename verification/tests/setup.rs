use vetto::linux::setup::{
    agent_plan, exit_byte, failure_report, fs_only_plan, full_tier_plan, setup_failure_message,
    supervisor_step, PlannedStep, ReapEvent, SetupStep, SupervisorAction,
};
use vetto::linux::setup::{
    handshake_failure_message, id_map_ack, id_map_failure_message, setup_reply_outcome, setup_timeout_message,
    unexpected_byte_message, SetupOutcome, SetupRead,
};

fn steps(plan: &[PlannedStep]) -> Vec<SetupStep> {
    plan.iter().map(|p| p.step).collect()
}

#[test]
fn full_tier_setup_order_with_relay_and_tap() {
    let plan = full_tier_plan(true, true, 2);
    assert_eq!(
        steps(&plan),
        vec![
            SetupStep::UnshareUser,
            SetupStep::IdMapHandshake,
            SetupStep::UnshareMount,
            SetupStep::MakeRootPrivate,
            SetupStep::UnshareIpc,
            SetupStep::UnshareNet,
            SetupStep::BlackholeResolvConf,
            SetupStep::ForkRelay,
            SetupStep::UnsharePid,
            SetupStep::MaskDenyPath(0),
            SetupStep::MaskDenyPath(1),
            SetupStep::ApplyLandlock,
            SetupStep::InstallObservationTap,
            SetupStep::ForkSupervisor,
        ]
    );
    assert_eq!(plan[0].fail_code, Some(114));
    assert_eq!(plan[1].fail_code, Some(119));
    assert_eq!(plan[7].fail_code, Some(116));
    assert_eq!(plan[9].fail_code, Some(121));
    assert_eq!(plan[11].fail_code, Some(120));
    assert_eq!(plan[12].fail_code, None);
    assert_eq!(plan[13].fail_code, Some(122));
}

#[test]
fn full_tier_without_relay_has_no_dns_blackhole() {
    let plan = full_tier_plan(false, false, 0);
    assert_eq!(plan.len(), 9);
    assert!(!steps(&plan).contains(&SetupStep::ForkRelay));
    assert_eq!(plan[7].step, SetupStep::ApplyLandlock);
}

#[test]
fn fs_only_setup_order() {
    let plan = fs_only_plan(true, false, true);
    assert_eq!(
        steps(&plan),
        vec![
            SetupStep::NewSession,
            SetupStep::InstallNetworkBlock,
            SetupStep::ApplyLandlock,
            SetupStep::StdioSetup,
            SetupStep::ChangeDir,
            SetupStep::ExecAgent,
        ]
    );
    assert_eq!(plan[0].fail_code, Some(125));
    assert_eq!(plan[1].fail_code, Some(123));
    assert_eq!(plan[5].fail_code, Some(127));
    assert_eq!(agent_plan(false).len(), 2);
}

#[test]
fn signal_deaths_map_to_128_plus_signal() {
    assert_eq!(exit_byte(-9), 137);
    assert_eq!(exit_byte(0), 0);
    assert_eq!(exit_byte(3), 3);
}

#[test]
fn supervisor_decisions() {
    assert_eq!(supervisor_step(0, ReapEvent::AgentReaped(-15)), (-15, SupervisorAction::KillAllAndReap));
    assert_eq!(supervisor_step(-15, ReapEvent::NoChildren), (-15, SupervisorAction::Exit(143)));
    assert_eq!(supervisor_step(2, ReapEvent::ParentGone), (2, SupervisorAction::KillAllAndExit(2)));
    assert_eq!(supervisor_step(2, ReapEvent::OtherReaped), (2, SupervisorAction::Reap));
    assert_eq!(supervisor_step(2, ReapEvent::NothingReady), (2, SupervisorAction::Poll));
}

#[test]
fn setup_failure_reports() {
    assert_eq!(failure_report("unshare user: EPERM"), "E:unshare user: EPERM\n");
    assert_eq!(
        setup_failure_message(114, "E:unshare user: EPERM"),
        "sandbox setup failed (child exit 114): unshare user: EPERM"
    );
    assert_eq!(setup_failure_message(-9, ""), "sandbox child died during setup (exit -9)");
}

#[test]
fn setup_reply_decides_the_parent() {
    assert_eq!(setup_reply_outcome(SetupRead::Byte(b'R')), SetupOutcome::Ready);
    assert_eq!(setup_reply_outcome(SetupRead::Byte(b'E')), SetupOutcome::ChildDied);
    assert_eq!(setup_reply_outcome(SetupRead::Eof), SetupOutcome::ChildDied);
    assert_eq!(setup_reply_outcome(SetupRead::Byte(b'x')), SetupOutcome::Unexpected(b'x'));
    assert_eq!(setup_reply_outcome(SetupRead::Timeout), SetupOutcome::TimedOut);
}

#[test]
fn parent_handshake_messages() {
    assert_eq!(id_map_ack(true), 0);
    assert_eq!(id_map_ack(false), 1);
    assert_eq!(
        unexpected_byte_message(b'x', 3),
        format!("unexpected setup byte {:#x} from sandbox child (exit 3)", b'x')
    );
    assert_eq!(unexpected_byte_message(0, -9), "unexpected setup byte 0x0 from sandbox child (exit -9)");
    assert_eq!(setup_timeout_message(-9), "sandbox setup timed out (child exit -9)");
    assert_eq!(
        id_map_failure_message(119),
        "writing uid_map/gid_map failed (child exit 119); unprivileged userns may be restricted here"
    );
    assert_eq!(
        handshake_failure_message("timed out", 114, "E:unshare(USER): EPERM"),
        "userns handshake failed (timed out, child exit 114): unshare(USER): EPERM"
    );
}
