//! Agent execution inside the guest over ssh: argument quoting and the argv
//! builders (the ssh exit status is the agent's exit status).
use vstd::prelude::*;
use crate::linux::net_relay::{posix_quote, posix_shell_quote};
use crate::text::{append_chars, chars_of, decimal, decimal_chars, string_of, trim, trim_ws};
use crate::macvm::{MacVmConfig, GUEST_VETTO, GUEST_WORKSPACE};

verus! {

/// ssh connect timeout for probes (seconds).
pub const SSH_PROBE_TIMEOUT_SECS: u64 = 5;

/// Whether `c` may appear unquoted: ASCII letters and digits and `-_./:=+@,`.
pub open spec fn shell_safe_char(c: char) -> bool {
    ('a' <= c <= 'z') || ('A' <= c <= 'Z') || ('0' <= c <= '9') || c == '-' || c == '_' || c == '.'
        || c == '/' || c == ':' || c == '=' || c == '+' || c == '@' || c == ','
}

/// `arg` as one POSIX shell word: unchanged when non-empty and made of safe
/// characters only, else single-quoted.
pub open spec fn quote_spec(arg: Seq<char>) -> Seq<char> {
    if arg.len() > 0 && forall|i: int| 0 <= i < arg.len() ==> shell_safe_char(#[trigger] arg[i]) {
        arg
    } else {
        posix_quote(arg)
    }
}

fn quote_chars(arg: &[char]) -> (out: Vec<char>)
    ensures
        out@ == quote_spec(arg@),
{
    let mut safe = arg.len() > 0;
    let mut i: usize = 0;
    while i < arg.len()
        invariant
            i <= arg.len(),
            safe == (arg.len() > 0 && forall|k: int| 0 <= k < i ==> shell_safe_char(#[trigger] arg@[k])),
        decreases arg.len() - i,
    {
        let c = arg[i];
        let ok = ('a' <= c && c <= 'z') || ('A' <= c && c <= 'Z') || ('0' <= c && c <= '9') || c
            == '-' || c == '_' || c == '.' || c == '/' || c == ':' || c == '=' || c == '+' || c
            == '@' || c == ',';
        if !ok {
            safe = false;
        }
        i += 1;
    }
    if safe {
        crate::text::copy_chars(arg)
    } else {
        posix_shell_quote(arg)
    }
}

/// POSIX-shell-quotes one argument.
pub fn shell_quote(arg: &str) -> (out: String)
    ensures
        out@ == quote_spec(arg@),
{
    let cs = chars_of(arg);
    let q = quote_chars(cs.as_slice());
    string_of(q.as_slice())
}

/// The views of a sequence of strings.
pub open spec fn strings_view(v: Seq<String>) -> Seq<Seq<char>> {
    v.map_values(|s: String| s@)
}

/// `-i <key>` when a non-blank key is configured.
pub open spec fn key_args(key: Option<String>) -> Seq<Seq<char>> {
    match key {
        Some(k) => if trim_ws(k@).len() > 0 {
            seq!["-i"@, k@]
        } else {
            Seq::empty()
        },
        None => Seq::empty(),
    }
}

/// The base ssh argv.
pub open spec fn ssh_base_spec(cfg: MacVmConfig, timeout_secs: u64, target: Seq<char>) -> Seq<Seq<char>> {
    seq![
        "ssh"@,
        "-o"@,
        "BatchMode=yes"@,
        "-o"@,
        "ConnectTimeout="@ + decimal(timeout_secs as nat),
        "-o"@,
        "StrictHostKeyChecking=accept-new"@,
    ] + key_args(cfg.ssh_key) + seq![target]
}

pub(crate) fn push_key_args(argv: &mut Vec<String>, key: &Option<String>)
    ensures
        strings_view(final(argv)@) == strings_view(old(argv)@) + key_args(*key),
{
    match key {
        Some(k) => {
            let kc = chars_of(k.as_str());
            if trim(kc.as_slice()).len() > 0 {
                argv.push("-i".to_owned());
                argv.push(k.clone());
                assert(strings_view(argv@) =~= strings_view(old(argv)@) + key_args(*key));
                return;
            }
        },
        None => {},
    }
    assert(strings_view(argv@) =~= strings_view(old(argv)@) + key_args(*key));
}

/// The base ssh argv (no remote command): batch mode, the connect timeout,
/// accept-new host keys, the key when configured, and the target.
pub fn ssh_base_argv(cfg: &MacVmConfig, timeout_secs: u64, target: &str) -> (argv: Vec<String>)
    ensures
        strings_view(argv@) == ssh_base_spec(*cfg, timeout_secs, target@),
{
    let mut argv: Vec<String> = Vec::new();
    argv.push("ssh".to_owned());
    argv.push("-o".to_owned());
    argv.push("BatchMode=yes".to_owned());
    argv.push("-o".to_owned());
    let mut t = chars_of("ConnectTimeout=");
    let d = decimal_chars(timeout_secs);
    append_chars(&mut t, d.as_slice());
    argv.push(string_of(t.as_slice()));
    argv.push("-o".to_owned());
    argv.push("StrictHostKeyChecking=accept-new".to_owned());
    let ghost head = strings_view(argv@);
    assert(head =~= seq![
        "ssh"@,
        "-o"@,
        "BatchMode=yes"@,
        "-o"@,
        "ConnectTimeout="@ + decimal(timeout_secs as nat),
        "-o"@,
        "StrictHostKeyChecking=accept-new"@,
    ]);
    push_key_args(&mut argv, &cfg.ssh_key);
    let ghost mid = strings_view(argv@);
    argv.push(target.to_owned());
    assert(strings_view(argv@) =~= mid.push(target@));
    assert(strings_view(argv@) =~= ssh_base_spec(*cfg, timeout_secs, target@));
    argv
}

/// The argv of the guest `vetto` for the agent command.
pub open spec fn guest_argv_spec(profile: Seq<char>, net_label: Seq<char>, agent_cmd: Seq<Seq<char>>) -> Seq<Seq<char>> {
    seq![GUEST_VETTO@, "--profile"@, profile, "--net"@, net_label, "--tui=none"@, "--"@] + agent_cmd
}

/// The argv of the guest `vetto`: the policy's profile and network mode,
/// no TUI, then the agent command.
pub fn guest_vetto_argv(profile: &str, net_label: &str, agent_cmd: &[String]) -> (argv: Vec<String>)
    ensures
        strings_view(argv@) == guest_argv_spec(profile@, net_label@, strings_view(agent_cmd@)),
{
    let mut argv: Vec<String> = Vec::new();
    argv.push(GUEST_VETTO.to_owned());
    argv.push("--profile".to_owned());
    argv.push(profile.to_owned());
    argv.push("--net".to_owned());
    argv.push(net_label.to_owned());
    argv.push("--tui=none".to_owned());
    argv.push("--".to_owned());
    let ghost head = strings_view(argv@);
    let mut i: usize = 0;
    while i < agent_cmd.len()
        invariant
            i <= agent_cmd.len(),
            strings_view(argv@) == head + strings_view(agent_cmd@).take(i as int),
        decreases agent_cmd.len() - i,
    {
        let ghost before = strings_view(argv@);
        let a = agent_cmd[i].clone();
        argv.push(a);
        assert(strings_view(argv@) =~= before.push(agent_cmd@[i as int]@));
        assert(strings_view(agent_cmd@).take(i + 1) =~= strings_view(agent_cmd@).take(i as int).push(
            agent_cmd@[i as int]@,
        ));
        assert(strings_view(argv@) =~= head + strings_view(agent_cmd@).take(i + 1));
        i += 1;
    }
    assert(strings_view(agent_cmd@).take(agent_cmd.len() as int) =~= strings_view(agent_cmd@));
    assert(strings_view(argv@) =~= guest_argv_spec(profile@, net_label@, strings_view(agent_cmd@)));
    argv
}

/// Each argument quoted, with a space before it.
pub open spec fn quoted_args(args: Seq<Seq<char>>) -> Seq<char>
    decreases args.len(),
{
    if args.len() == 0 {
        Seq::empty()
    } else {
        quoted_args(args.drop_last()) + seq![' '] + quote_spec(args.last())
    }
}

/// The remote shell command.
pub open spec fn remote_command_spec(guest_argv: Seq<Seq<char>>) -> Seq<char> {
    "cd "@ + quote_spec(GUEST_WORKSPACE@) + " && exec"@ + quoted_args(guest_argv)
}

/// The remote command: `cd <workspace> && exec <quoted argv...>`, so the
/// ssh exit status is exactly the agent's.
pub fn remote_command_string(guest_argv: &[String]) -> (cmd: String)
    ensures
        cmd@ == remote_command_spec(strings_view(guest_argv@)),
{
    let mut cmd = chars_of("cd ");
    let ws = chars_of(GUEST_WORKSPACE);
    let q = quote_chars(ws.as_slice());
    append_chars(&mut cmd, q.as_slice());
    let tail = chars_of(" && exec");
    append_chars(&mut cmd, tail.as_slice());
    let ghost head = cmd@;
    let mut i: usize = 0;
    while i < guest_argv.len()
        invariant
            i <= guest_argv.len(),
            cmd@ == head + quoted_args(strings_view(guest_argv@).take(i as int)),
        decreases guest_argv.len() - i,
    {
        cmd.push(' ');
        let a = chars_of(guest_argv[i].as_str());
        let qa = quote_chars(a.as_slice());
        append_chars(&mut cmd, qa.as_slice());
        assert(strings_view(guest_argv@).take(i + 1).drop_last() =~= strings_view(guest_argv@).take(
            i as int,
        ));
        assert(cmd@ =~= head + quoted_args(strings_view(guest_argv@).take(i + 1)));
        i += 1;
    }
    assert(strings_view(guest_argv@).take(guest_argv.len() as int) =~= strings_view(guest_argv@));
    string_of(cmd.as_slice())
}

/// The full ssh argv for a session: the base argv (10 s timeout) and the
/// remote command as one argument.
pub fn session_ssh_argv(
    cfg: &MacVmConfig,
    target: &str,
    profile: &str,
    net_label: &str,
    agent_cmd: &[String],
) -> (argv: Vec<String>)
    ensures
        strings_view(argv@) == ssh_base_spec(*cfg, 10, target@).push(
            remote_command_spec(guest_argv_spec(profile@, net_label@, strings_view(agent_cmd@))),
        ),
{
    let mut argv = ssh_base_argv(cfg, 10, target);
    let g = guest_vetto_argv(profile, net_label, agent_cmd);
    let r = remote_command_string(g.as_slice());
    argv.push(r);
    assert(strings_view(argv@) =~= ssh_base_spec(*cfg, 10, target@).push(
        remote_command_spec(guest_argv_spec(profile@, net_label@, strings_view(agent_cmd@))),
    ));
    argv
}

} // verus!
