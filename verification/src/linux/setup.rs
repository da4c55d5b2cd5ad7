//! The order in which a sandboxed child sets itself up, the exit code each
//! failed step leaves, the inner supervisor's reaping decisions, and the
//! report the parent makes of a child that died during setup.
use vstd::prelude::*;
use crate::text::{
    append_chars, chars_of, decimal, decimal_chars, string_of, trim_start_matches_text, trim_start_text,
};

verus! {

/// One step of a child's setup.
#[derive(Debug, Clone, Copy, PartialEq, Eq, Structural)]
pub enum SetupStep {
    UnshareUser,
    IdMapHandshake,
    UnshareMount,
    MakeRootPrivate,
    UnshareIpc,
    UnshareNet,
    BlackholeResolvConf,
    ForkRelay,
    UnsharePid,
    /// Mask the deny path of this index.
    MaskDenyPath(usize),
    ApplyLandlock,
    /// The optional observation tap (fail-open: no exit code).
    InstallObservationTap,
    ForkSupervisor,
    NewSession,
    InstallNetworkBlock,
    ForkAgent,
    StdioSetup,
    ChangeDir,
    ExecAgent,
    /// Close every inherited descriptor but those kept.
    CloseInheritedFds,
    /// A private process group in the caller's session.
    NewProcessGroup,
    /// The policy's resource ceilings (refusals are reported, not fatal).
    ApplyRlimits,
    /// Confine the child with Seatbelt.
    ApplySeatbelt,
    /// Tell the parent the child is ready.
    SendReady,
    /// Close everything but the three standard descriptors.
    CloseToStdio,
}

/// A step with the exit code its failure leaves (`None`: failure is
/// tolerated).
#[derive(Debug, Clone, Copy, PartialEq, Eq, Structural)]
pub struct PlannedStep {
    pub step: SetupStep,
    pub fail_code: Option<i32>,
}

/// A step whose failure ends the child with `code`.
pub open spec fn fatal(step: SetupStep, code: i32) -> PlannedStep {
    PlannedStep { step, fail_code: Some(code) }
}

/// `s` when `b` holds, else nothing.
pub open spec fn when(b: bool, s: Seq<PlannedStep>) -> Seq<PlannedStep> {
    if b {
        s
    } else {
        Seq::empty()
    }
}

/// Masking of the `n` deny paths, in order.
pub open spec fn mask_steps(n: nat) -> Seq<PlannedStep> {
    Seq::new(n, |i: int| fatal(SetupStep::MaskDenyPath(i as usize), 121))
}

/// The full tier's outer child: user namespace and id-map handshake, mount
/// namespace made private, IPC and network namespaces, then (with the relay)
/// the DNS blackhole and the relay's fork, the pid namespace, every secret
/// mask, Landlock, the optional tap, and the inner supervisor's fork.
pub open spec fn full_plan_spec(relay: bool, observe: bool, deny_count: nat) -> Seq<PlannedStep> {
    seq![
        fatal(SetupStep::UnshareUser, 114),
        fatal(SetupStep::IdMapHandshake, 119),
        fatal(SetupStep::UnshareMount, 115),
        fatal(SetupStep::MakeRootPrivate, 115),
        fatal(SetupStep::UnshareIpc, 115),
        fatal(SetupStep::UnshareNet, 115),
    ] + when(
        relay,
        seq![fatal(SetupStep::BlackholeResolvConf, 121), fatal(SetupStep::ForkRelay, 116)],
    ) + seq![fatal(SetupStep::UnsharePid, 115)] + mask_steps(deny_count) + seq![
        fatal(SetupStep::ApplyLandlock, 120),
    ] + when(
        observe,
        seq![PlannedStep { step: SetupStep::InstallObservationTap, fail_code: None }],
    ) + seq![fatal(SetupStep::ForkSupervisor, 122)]
}

/// The agent's own start: stdio, the working directory where one is set,
/// then the exec.
pub open spec fn agent_plan_spec(chdir: bool) -> Seq<PlannedStep> {
    seq![fatal(SetupStep::StdioSetup, 124)] + when(chdir, seq![fatal(SetupStep::ChangeDir, 117)])
        + seq![fatal(SetupStep::ExecAgent, 127)]
}

/// The filesystem-only tier's child: its own session, the network block
/// with the network off, Landlock, the optional tap, then the agent's start.
pub open spec fn fs_only_plan_spec(net_off: bool, observe: bool, chdir: bool) -> Seq<PlannedStep> {
    seq![fatal(SetupStep::NewSession, 125)] + when(
        net_off,
        seq![fatal(SetupStep::InstallNetworkBlock, 123)],
    ) + seq![fatal(SetupStep::ApplyLandlock, 120)] + when(
        observe,
        seq![PlannedStep { step: SetupStep::InstallObservationTap, fail_code: None }],
    ) + agent_plan_spec(chdir)
}

fn step(s: SetupStep, code: i32) -> (p: PlannedStep)
    ensures
        p == fatal(s, code),
{
    PlannedStep { step: s, fail_code: Some(code) }
}

/// The full tier's outer child setup, in order.
pub fn full_tier_plan(relay: bool, observe: bool, deny_count: usize) -> (v: Vec<PlannedStep>)
    ensures
        v@ == full_plan_spec(relay, observe, deny_count as nat),
{
    let mut v: Vec<PlannedStep> = Vec::new();
    v.push(step(SetupStep::UnshareUser, 114));
    v.push(step(SetupStep::IdMapHandshake, 119));
    v.push(step(SetupStep::UnshareMount, 115));
    v.push(step(SetupStep::MakeRootPrivate, 115));
    v.push(step(SetupStep::UnshareIpc, 115));
    v.push(step(SetupStep::UnshareNet, 115));
    if relay {
        v.push(step(SetupStep::BlackholeResolvConf, 121));
        v.push(step(SetupStep::ForkRelay, 116));
    }
    v.push(step(SetupStep::UnsharePid, 115));
    let ghost head = v@;
    let mut i: usize = 0;
    while i < deny_count
        invariant
            i <= deny_count,
            v@ == head + mask_steps(i as nat),
        decreases deny_count - i,
    {
        v.push(step(SetupStep::MaskDenyPath(i), 121));
        assert(head + mask_steps((i + 1) as nat) =~= (head + mask_steps(i as nat)).push(
            fatal(SetupStep::MaskDenyPath(i), 121),
        ));
        i += 1;
    }
    v.push(step(SetupStep::ApplyLandlock, 120));
    if observe {
        v.push(PlannedStep { step: SetupStep::InstallObservationTap, fail_code: None });
    }
    v.push(step(SetupStep::ForkSupervisor, 122));
    assert(v@ =~= full_plan_spec(relay, observe, deny_count as nat));
    v
}

/// The agent's own start, in order.
pub fn agent_plan(chdir: bool) -> (v: Vec<PlannedStep>)
    ensures
        v@ == agent_plan_spec(chdir),
{
    let mut v: Vec<PlannedStep> = Vec::new();
    v.push(step(SetupStep::StdioSetup, 124));
    if chdir {
        v.push(step(SetupStep::ChangeDir, 117));
    }
    v.push(step(SetupStep::ExecAgent, 127));
    assert(v@ =~= agent_plan_spec(chdir));
    v
}

/// The filesystem-only tier's child setup, in order.
pub fn fs_only_plan(net_off: bool, observe: bool, chdir: bool) -> (v: Vec<PlannedStep>)
    ensures
        v@ == fs_only_plan_spec(net_off, observe, chdir),
{
    let mut v: Vec<PlannedStep> = Vec::new();
    v.push(step(SetupStep::NewSession, 125));
    if net_off {
        v.push(step(SetupStep::InstallNetworkBlock, 123));
    }
    v.push(step(SetupStep::ApplyLandlock, 120));
    if observe {
        v.push(PlannedStep { step: SetupStep::InstallObservationTap, fail_code: None });
    }
    let tail = agent_plan(chdir);
    let mut i: usize = 0;
    let ghost head = v@;
    while i < tail.len()
        invariant
            i <= tail.len(),
            v@ == head + tail@.take(i as int),
        decreases tail.len() - i,
    {
        v.push(tail[i]);
        assert(head + tail@.take(i + 1) =~= (head + tail@.take(i as int)).push(tail@[i as int]));
        i += 1;
    }
    assert(tail@.take(tail.len() as int) =~= tail@);
    assert(v@ =~= fs_only_plan_spec(net_off, observe, chdir));
    v
}

/// Landlock comes after every secret mask and before the supervisor (and so
/// the agent) is forked; with the relay, the network namespace exists before
/// the relay is forked into it.
pub proof fn lemma_full_plan_order(relay: bool, observe: bool, deny_count: nat)
    ensures
        ({
            let p = full_plan_spec(relay, observe, deny_count);
            exists|l: int|
                0 <= l < p.len() && p[l].step == SetupStep::ApplyLandlock && (forall|i: int|
                    0 <= i < p.len() && (#[trigger] p[i].step) is MaskDenyPath ==> i < l) && (forall|i: int|
                    0 <= i < p.len() && #[trigger] p[i].step == SetupStep::ForkSupervisor ==> l < i)
        }),
        ({
            let p = full_plan_spec(relay, observe, deny_count);
            forall|i: int, j: int|
                0 <= i < p.len() && 0 <= j < p.len() && #[trigger] p[i].step == SetupStep::UnshareNet
                    && #[trigger] p[j].step == SetupStep::ForkRelay ==> i < j
        }),
{
    let p = full_plan_spec(relay, observe, deny_count);
    let r: int = if relay {
        2
    } else {
        0
    };
    let l = 7 + r + deny_count;
    assert(p[l].step == SetupStep::ApplyLandlock);
    assert forall|i: int| 0 <= i < p.len() && (#[trigger] p[i].step) is MaskDenyPath implies i < l by {
        if i >= l {
            assert(!(p[i].step is MaskDenyPath));
        }
    }
    assert forall|i: int| 0 <= i < p.len() && #[trigger] p[i].step == SetupStep::ForkSupervisor implies l < i by {
        if i < 7 + r {
            assert(p[i].step != SetupStep::ForkSupervisor);
        } else if i < l {
            assert(p[i] == mask_steps(deny_count)[i - 7 - r]);
        }
    }
    assert forall|i: int, j: int|
        0 <= i < p.len() && 0 <= j < p.len() && #[trigger] p[i].step == SetupStep::UnshareNet
            && #[trigger] p[j].step == SetupStep::ForkRelay implies i < j by {
        if i >= 6 {
            if i < 6 + r {
            } else if i < 7 + r {
            } else if i < l {
                assert(p[i] == mask_steps(deny_count)[i - 7 - r]);
            }
        }
        if j < 6 {
        }
    }
}

/// The exit status byte a supervisor passes on: a signal death (a negative
/// code) becomes 128 plus the signal number.
pub open spec fn exit_byte_spec(code: i32) -> int {
    if code < 0 {
        128 - code
    } else {
        code as int
    }
}

/// The exit status byte for `code`.
pub fn exit_byte(code: i32) -> (r: i32)
    requires
        code >= i32::MIN + 129,
    ensures
        r == exit_byte_spec(code),
{
    if code < 0 {
        128 - code
    } else {
        code
    }
}

/// What the inner supervisor (pid 1 of the sandbox) learned in one turn.
#[derive(Debug, Clone, Copy, PartialEq, Eq, Structural)]
pub enum ReapEvent {
    /// The agent was reaped with this decoded exit code.
    AgentReaped(i32),
    /// Another process of the namespace was reaped.
    OtherReaped,
    /// Nothing is ready to reap.
    NothingReady,
    /// No child is left.
    NoChildren,
    /// The alive pipe reached its end: vetto is gone.
    ParentGone,
}

/// What the inner supervisor does next.
#[derive(Debug, Clone, Copy, PartialEq, Eq, Structural)]
pub enum SupervisorAction {
    /// Kill every process of the namespace, then keep reaping.
    KillAllAndReap,
    /// Reap again at once.
    Reap,
    /// Wait on the alive pipe, then reap again.
    Poll,
    /// Kill everything, reap it all, and exit with this status.
    KillAllAndExit(i32),
    /// Exit with this status.
    Exit(i32),
}

/// One decision of the inner supervisor, from the agent's last known code
/// and what just happened: the agent's death kills the namespace; an empty
/// namespace ends the supervisor with the agent's status; vetto's death kills
/// the namespace and ends it too.
pub fn supervisor_step(agent_code: i32, event: ReapEvent) -> (r: (i32, SupervisorAction))
    requires
        agent_code >= i32::MIN + 129,
        event matches ReapEvent::AgentReaped(c) ==> c >= i32::MIN + 129,
    ensures
        r.0 >= i32::MIN + 129,
        match event {
            ReapEvent::AgentReaped(c) => r == (c, SupervisorAction::KillAllAndReap),
            ReapEvent::OtherReaped => r == (agent_code, SupervisorAction::Reap),
            ReapEvent::NothingReady => r == (agent_code, SupervisorAction::Poll),
            ReapEvent::NoChildren => r.0 == agent_code && (r.1 matches SupervisorAction::Exit(b) && b
                == exit_byte_spec(agent_code)),
            ReapEvent::ParentGone => r.0 == agent_code && (r.1 matches SupervisorAction::KillAllAndExit(
                b,
            ) && b == exit_byte_spec(agent_code)),
        },
{
    match event {
        ReapEvent::AgentReaped(c) => (c, SupervisorAction::KillAllAndReap),
        ReapEvent::OtherReaped => (agent_code, SupervisorAction::Reap),
        ReapEvent::NothingReady => (agent_code, SupervisorAction::Poll),
        ReapEvent::NoChildren => (agent_code, SupervisorAction::Exit(exit_byte(agent_code))),
        ReapEvent::ParentGone => (agent_code, SupervisorAction::KillAllAndExit(exit_byte(agent_code))),
    }
}

/// A signed decimal.
pub open spec fn signed_decimal(n: i32) -> Seq<char> {
    if n < 0 {
        seq!['-'] + decimal((-(n as int)) as nat)
    } else {
        decimal(n as nat)
    }
}

fn signed_decimal_chars(n: i32) -> (out: Vec<char>)
    ensures
        out@ == signed_decimal(n),
{
    if n < 0 {
        let m: u64 = (-(n as i64)) as u64;
        let mut out: Vec<char> = Vec::new();
        out.push('-');
        let d = decimal_chars(m);
        append_chars(&mut out, d.as_slice());
        assert(out@ =~= signed_decimal(n));
        out
    } else {
        decimal_chars(n as u64)
    }
}

/// The line a failing child writes on the error pipe before it exits.
pub fn failure_report(msg: &str) -> (s: String)
    ensures
        s@ == "E:"@ + msg@ + "\n"@,
{
    let mut out = chars_of("E:");
    let m = chars_of(msg);
    append_chars(&mut out, m.as_slice());
    out.push('\n');
    assert(out@ =~= "E:"@ + msg@ + "\n"@) by {
        reveal_strlit("\n");
    }
    string_of(out.as_slice())
}

/// The parent's error for a child that died during setup, from its exit
/// code and the (trimmed) text it left on the error pipe.
pub open spec fn setup_failure_spec(code: i32, reason: Seq<char>) -> Seq<char> {
    if reason.len() == 0 {
        "sandbox child died during setup (exit "@ + signed_decimal(code) + ")"@
    } else {
        "sandbox setup failed (child exit "@ + signed_decimal(code) + "): "@
            + crate::text::trim_start_text(reason, "E:"@)
    }
}

/// The parent's error for a child that died during setup.
pub fn setup_failure_message(code: i32, reason: &str) -> (s: String)
    ensures
        s@ == setup_failure_spec(code, reason@),
{
    let r = chars_of(reason);
    let num = signed_decimal_chars(code);
    if r.len() == 0 {
        let mut out = chars_of("sandbox child died during setup (exit ");
        append_chars(&mut out, num.as_slice());
        let close = chars_of(")");
        append_chars(&mut out, close.as_slice());
        string_of(out.as_slice())
    } else {
        let mut out = chars_of("sandbox setup failed (child exit ");
        append_chars(&mut out, num.as_slice());
        let mid = chars_of("): ");
        append_chars(&mut out, mid.as_slice());
        let prefix = chars_of("E:");
        let rest = trim_start_matches_text(r.as_slice(), prefix.as_slice());
        append_chars(&mut out, rest.as_slice());
        string_of(out.as_slice())
    }
}

/// What the parent read from the setup error pipe.
#[derive(Debug, Clone, Copy, PartialEq, Eq, Structural)]
pub enum SetupRead {
    Byte(u8),
    /// The pipe ended (or the read failed).
    Eof,
    /// Nothing came before the setup deadline.
    Timeout,
}

/// What the parent concludes from the setup reply.
#[derive(Debug, Clone, Copy, PartialEq, Eq, Structural)]
pub enum SetupOutcome {
    /// `R`: the child is set up and about to exec the agent.
    Ready,
    /// `E` or the end of the pipe: the child died; its report and exit code
    /// make the error.
    ChildDied,
    /// Any other byte: reap the child and fail.
    Unexpected(u8),
    /// No reply in time: kill and reap the child, and fail.
    TimedOut,
}

/// The parent's reading of the setup reply.
pub open spec fn setup_reply_spec(read: SetupRead) -> SetupOutcome {
    match read {
        SetupRead::Byte(b) => if b == 82u8 {
            SetupOutcome::Ready
        } else if b == 69u8 {
            SetupOutcome::ChildDied
        } else {
            SetupOutcome::Unexpected(b)
        },
        SetupRead::Eof => SetupOutcome::ChildDied,
        SetupRead::Timeout => SetupOutcome::TimedOut,
    }
}

/// The parent's reading of the setup reply: `R` ready, `E` or the end of
/// the pipe a dead child, any other byte unexpected, no reply a timeout.
pub fn setup_reply_outcome(read: SetupRead) -> (o: SetupOutcome)
    ensures
        o == setup_reply_spec(read),
{
    match read {
        SetupRead::Byte(b) => if b == 82u8 {
            SetupOutcome::Ready
        } else if b == 69u8 {
            SetupOutcome::ChildDied
        } else {
            SetupOutcome::Unexpected(b)
        },
        SetupRead::Eof => SetupOutcome::ChildDied,
        SetupRead::Timeout => SetupOutcome::TimedOut,
    }
}

/// The byte that answers the child's id-map request: 0 when the parent
/// wrote the maps, 1 when it could not.
pub fn id_map_ack(maps_ok: bool) -> (b: u8)
    ensures
        b == (if maps_ok {
            0u8
        } else {
            1u8
        }),
{
    if maps_ok {
        0
    } else {
        1
    }
}

/// A lowercase hexadecimal digit.
pub open spec fn hex_digit(d: nat) -> char {
    if d < 10 {
        ((48 + d) as u8) as char
    } else {
        ((87 + d) as u8) as char
    }
}

/// The lowercase hexadecimal digits of `n`, without leading zeros.
pub open spec fn hex(n: nat) -> Seq<char>
    decreases n,
{
    if n < 16 {
        seq![hex_digit(n)]
    } else {
        hex(n / 16).push(hex_digit(n % 16))
    }
}

fn hex_digit_char(x: u8) -> (c: char)
    requires
        x < 16,
    ensures
        c == hex_digit(x as nat),
{
    if x < 10 {
        ((48 + x) as u8) as char
    } else {
        ((87 + x) as u8) as char
    }
}

fn hex_chars(n: u8) -> (out: Vec<char>)
    ensures
        out@ == hex(n as nat),
{
    let mut out: Vec<char> = Vec::new();
    if n < 16 {
        out.push(hex_digit_char(n));
    } else {
        out.push(hex_digit_char(n / 16));
        out.push(hex_digit_char(n % 16));
        assert(hex((n / 16) as nat) == seq![hex_digit((n / 16) as nat)]);
    }
    assert(out@ =~= hex(n as nat));
    out
}

/// The parent's error for an unexpected setup byte (`{:#x}`).
pub open spec fn unexpected_byte_spec(byte: u8, code: i32) -> Seq<char> {
    "unexpected setup byte 0x"@ + hex(byte as nat) + " from sandbox child (exit "@ + signed_decimal(code)
        + ")"@
}

/// The parent's error for an unexpected setup byte.
pub fn unexpected_byte_message(byte: u8, code: i32) -> (s: String)
    ensures
        s@ == unexpected_byte_spec(byte, code),
{
    let mut out = chars_of("unexpected setup byte 0x");
    let h = hex_chars(byte);
    append_chars(&mut out, h.as_slice());
    let mid = chars_of(" from sandbox child (exit ");
    append_chars(&mut out, mid.as_slice());
    let num = signed_decimal_chars(code);
    append_chars(&mut out, num.as_slice());
    let close = chars_of(")");
    append_chars(&mut out, close.as_slice());
    string_of(out.as_slice())
}

/// The parent's error when no setup reply came in time.
pub fn setup_timeout_message(code: i32) -> (s: String)
    ensures
        s@ == "sandbox setup timed out (child exit "@ + signed_decimal(code) + ")"@,
{
    let mut out = chars_of("sandbox setup timed out (child exit ");
    let num = signed_decimal_chars(code);
    append_chars(&mut out, num.as_slice());
    let close = chars_of(")");
    append_chars(&mut out, close.as_slice());
    string_of(out.as_slice())
}

/// The parent's error when it could not write the child's id maps.
pub fn id_map_failure_message(code: i32) -> (s: String)
    ensures
        s@ == "writing uid_map/gid_map failed (child exit "@ + signed_decimal(code)
            + "); unprivileged userns may be restricted here"@,
{
    let mut out = chars_of("writing uid_map/gid_map failed (child exit ");
    let num = signed_decimal_chars(code);
    append_chars(&mut out, num.as_slice());
    let tail = chars_of("); unprivileged userns may be restricted here");
    append_chars(&mut out, tail.as_slice());
    string_of(out.as_slice())
}

/// The parent's error when the child's id-map request did not arrive:
/// the read error, the child's exit code and its report.
pub fn handshake_failure_message(err: &str, code: i32, reason: &str) -> (s: String)
    ensures
        s@ == "userns handshake failed ("@ + err@ + ", child exit "@ + signed_decimal(code) + "): "@
            + trim_start_text(reason@, "E:"@),
{
    let mut out = chars_of("userns handshake failed (");
    let e = chars_of(err);
    append_chars(&mut out, e.as_slice());
    let mid = chars_of(", child exit ");
    append_chars(&mut out, mid.as_slice());
    let num = signed_decimal_chars(code);
    append_chars(&mut out, num.as_slice());
    let sep = chars_of("): ");
    append_chars(&mut out, sep.as_slice());
    let r = chars_of(reason);
    let prefix = chars_of("E:");
    let rest = trim_start_matches_text(r.as_slice(), prefix.as_slice());
    append_chars(&mut out, rest.as_slice());
    string_of(out.as_slice())
}

} // verus!
