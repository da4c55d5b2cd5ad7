//! The macOS sandboxed child: which descriptors it keeps, the order of its
//! setup steps with the exit code each failure leaves, and the Seatbelt
//! profile each diagnostic mode applies.
use vstd::prelude::*;
use crate::linux::setup::{fatal, PlannedStep, SetupStep};
use crate::text::{append_chars, chars_eq, chars_of, string_of};

verus! {

/// How the child's standard descriptors are set up.
#[derive(Debug, Clone, Copy, PartialEq, Eq, Structural)]
pub enum StdioKind {
    /// A pseudo-terminal: the slave end becomes the child's terminal.
    Pty { slave_fd: i32 },
    /// Output captured through two pipe write ends; input is `/dev/null`.
    Captured { stdout_w: i32, stderr_w: i32 },
    /// The caller's descriptors.
    Inherit,
}

/// The descriptors the child keeps open above the standard three: the
/// setup error pipe, then the stdio mode's own descriptors.
pub open spec fn keep_fds_spec(err_w: i32, stdio: StdioKind) -> Seq<i32> {
    match stdio {
        StdioKind::Pty { slave_fd } => seq![err_w, slave_fd],
        StdioKind::Captured { stdout_w, stderr_w } => seq![err_w, stdout_w, stderr_w],
        StdioKind::Inherit => seq![err_w],
    }
}

/// The descriptors the child keeps while it sets itself up.
pub fn child_keep_fds(err_w: i32, stdio: StdioKind) -> (k: Vec<i32>)
    ensures
        k@ == keep_fds_spec(err_w, stdio),
{
    let mut k: Vec<i32> = Vec::new();
    k.push(err_w);
    match stdio {
        StdioKind::Pty { slave_fd } => {
            k.push(slave_fd);
        },
        StdioKind::Captured { stdout_w, stderr_w } => {
            k.push(stdout_w);
            k.push(stderr_w);
        },
        StdioKind::Inherit => {},
    }
    assert(k@ =~= keep_fds_spec(err_w, stdio));
    k
}

/// A step whose failure is tolerated.
pub open spec fn tolerated(step: SetupStep) -> PlannedStep {
    PlannedStep { step, fail_code: None }
}

/// The macOS child's setup: close what it does not keep; a new session for
/// a terminal, a private process group otherwise (so a sweep of the group
/// never reaches the caller's); the stdio setup unless inherited; the
/// resource ceilings (refusals tolerated); the working directory where one
/// is set; Seatbelt; the ready byte; close down to stdio; exec.
pub open spec fn macos_child_plan_spec(stdio: StdioKind, chdir: bool) -> Seq<PlannedStep> {
    seq![
        tolerated(SetupStep::CloseInheritedFds),
        if stdio is Pty {
            fatal(SetupStep::NewSession, 125)
        } else {
            fatal(SetupStep::NewProcessGroup, 125)
        },
    ] + (if stdio is Inherit {
        Seq::empty()
    } else {
        seq![fatal(SetupStep::StdioSetup, 124)]
    }) + seq![tolerated(SetupStep::ApplyRlimits)] + (if chdir {
        seq![fatal(SetupStep::ChangeDir, 117)]
    } else {
        Seq::empty()
    }) + seq![
        fatal(SetupStep::ApplySeatbelt, 120),
        tolerated(SetupStep::SendReady),
        tolerated(SetupStep::CloseToStdio),
        fatal(SetupStep::ExecAgent, 127),
    ]
}

/// The macOS child's setup, in order.
pub fn macos_child_plan(stdio: StdioKind, chdir: bool) -> (v: Vec<PlannedStep>)
    ensures
        v@ == macos_child_plan_spec(stdio, chdir),
{
    let mut v: Vec<PlannedStep> = Vec::new();
    v.push(PlannedStep { step: SetupStep::CloseInheritedFds, fail_code: None });
    match stdio {
        StdioKind::Pty { .. } => {
            v.push(PlannedStep { step: SetupStep::NewSession, fail_code: Some(125) });
        },
        _ => {
            v.push(PlannedStep { step: SetupStep::NewProcessGroup, fail_code: Some(125) });
        },
    }
    match stdio {
        StdioKind::Inherit => {},
        _ => {
            v.push(PlannedStep { step: SetupStep::StdioSetup, fail_code: Some(124) });
        },
    }
    v.push(PlannedStep { step: SetupStep::ApplyRlimits, fail_code: None });
    if chdir {
        v.push(PlannedStep { step: SetupStep::ChangeDir, fail_code: Some(117) });
    }
    v.push(PlannedStep { step: SetupStep::ApplySeatbelt, fail_code: Some(120) });
    v.push(PlannedStep { step: SetupStep::SendReady, fail_code: None });
    v.push(PlannedStep { step: SetupStep::CloseToStdio, fail_code: None });
    v.push(PlannedStep { step: SetupStep::ExecAgent, fail_code: Some(127) });
    assert(v@ =~= macos_child_plan_spec(stdio, chdir));
    v
}

/// The child always leaves the caller's process group before anything that
/// can run agent code, and it is confined by Seatbelt before it reports
/// ready and execs the agent: the second step is the new session or group,
/// and the plan ends with Seatbelt, the ready byte, the close down to stdio
/// and the exec.
pub proof fn lemma_macos_child_plan_order(stdio: StdioKind, chdir: bool)
    ensures
        ({
            let p = macos_child_plan_spec(stdio, chdir);
            &&& p.len() >= 6
            &&& (p[1].step == SetupStep::NewSession || p[1].step == SetupStep::NewProcessGroup)
            &&& p[1].fail_code == Some(125i32)
            &&& p[p.len() - 4] == fatal(SetupStep::ApplySeatbelt, 120)
            &&& p[p.len() - 3].step == SetupStep::SendReady
            &&& p[p.len() - 1] == fatal(SetupStep::ExecAgent, 127)
        }),
{
}

/// The raw profile a diagnostic Seatbelt mode applies.
pub open spec fn diagnostic_profile_spec(mode: Seq<char>) -> Option<Seq<char>> {
    if mode == "allow-all"@ {
        Some("(version 1)\n(allow default)\n"@)
    } else if mode == "deny-net-only"@ {
        Some("(version 1)\n(deny network*)\n"@)
    } else if mode == "wb-tcpudp"@ {
        Some(
            "(version 1)\n(deny network-outbound (remote tcp-port *))\n(deny network-outbound (remote udp-port *))\n"@,
        )
    } else if mode == "wb-mach"@ {
        Some("(version 1)\n(deny network*)\n(allow mach-lookup)\n(allow system-socket)\n"@)
    } else if mode == "wb-socket"@ {
        Some("(version 1)\n(deny network*)\n(allow system-socket)\n"@)
    } else {
        None
    }
}

fn is_text(a: &str, b: &str) -> (r: bool)
    ensures
        r == (a@ == b@),
{
    let x = chars_of(a);
    let y = chars_of(b);
    chars_eq(x.as_slice(), y.as_slice())
}

/// The raw profile of a diagnostic Seatbelt mode; `None` for any other mode.
pub fn seatbelt_diagnostic_profile(mode: &str) -> (p: Option<String>)
    ensures
        match p {
            Some(s) => diagnostic_profile_spec(mode@) == Some(s@),
            None => diagnostic_profile_spec(mode@) is None,
        },
{
    if is_text(mode, "allow-all") {
        Some("(version 1)\n(allow default)\n".to_owned())
    } else if is_text(mode, "deny-net-only") {
        Some("(version 1)\n(deny network*)\n".to_owned())
    } else if is_text(mode, "wb-tcpudp") {
        Some(
            "(version 1)\n(deny network-outbound (remote tcp-port *))\n(deny network-outbound (remote udp-port *))\n".to_owned(),
        )
    } else if is_text(mode, "wb-mach") {
        Some("(version 1)\n(deny network*)\n(allow mach-lookup)\n(allow system-socket)\n".to_owned())
    } else if is_text(mode, "wb-socket") {
        Some("(version 1)\n(deny network*)\n(allow system-socket)\n".to_owned())
    } else {
        None
    }
}

/// What the child's Seatbelt step does.
#[derive(Debug, Clone, PartialEq, Eq)]
pub enum SeatbeltChoice {
    /// No confinement (the `none` diagnostic mode, never a fallback).
    Skip,
    /// A raw diagnostic profile.
    Diagnostic(String),
    /// The profile generated from the policy and network mode.
    Policy,
}

/// The Seatbelt step for the diagnostic mode variable's value (`None` when
/// unset or not text).
pub open spec fn seatbelt_choice_spec(mode: Option<Seq<char>>) -> Option<Option<Seq<char>>> {
    match mode {
        Some(m) => if m == "none"@ {
            None
        } else {
            Some(diagnostic_profile_spec(m))
        },
        None => Some(None),
    }
}

/// The Seatbelt step for the diagnostic mode variable's value.
pub fn seatbelt_choice(mode: Option<&str>) -> (c: SeatbeltChoice)
    ensures
        match seatbelt_choice_spec(crate::linux::net_relay::reply_view(mode)) {
            None => c == SeatbeltChoice::Skip,
            Some(None) => c == SeatbeltChoice::Policy,
            Some(Some(prof)) => c matches SeatbeltChoice::Diagnostic(s) && s@ == prof,
        },
{
    match mode {
        Some(m) => {
            if is_text(m, "none") {
                SeatbeltChoice::Skip
            } else {
                match seatbelt_diagnostic_profile(m) {
                    Some(p) => SeatbeltChoice::Diagnostic(p),
                    None => SeatbeltChoice::Policy,
                }
            }
        },
        None => SeatbeltChoice::Policy,
    }
}

/// The failure text of the Seatbelt step: with the diagnostic mode named
/// where one applied.
pub open spec fn seatbelt_failure_spec(mode: Option<Seq<char>>, err: Seq<char>) -> Seq<char> {
    match mode {
        Some(m) => "apply seatbelt ("@ + m + "): "@ + err,
        None => "apply seatbelt: "@ + err,
    }
}

/// The failure text of the Seatbelt step.
pub fn seatbelt_failure_message(mode: Option<&str>, err: &str) -> (s: String)
    ensures
        s@ == seatbelt_failure_spec(crate::linux::net_relay::reply_view(mode), err@),
{
    let mut out = match mode {
        Some(m) => {
            let mut o = chars_of("apply seatbelt (");
            let mc = chars_of(m);
            append_chars(&mut o, mc.as_slice());
            let close = chars_of("): ");
            append_chars(&mut o, close.as_slice());
            o
        },
        None => chars_of("apply seatbelt: "),
    };
    let ec = chars_of(err);
    append_chars(&mut out, ec.as_slice());
    string_of(out.as_slice())
}

} // verus!
