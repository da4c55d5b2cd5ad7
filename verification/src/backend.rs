//! Sandbox backends and the fail-closed choice between them: if no
//! enforcement backend can be established, the agent does not run.
use vstd::prelude::*;
use crate::linux::net_relay::NetRule;
use crate::linux::{pick_tier, LinuxSandbox, Probe, Tier, TierError};
use crate::text::{append_chars, chars_of, decimal, decimal_chars, join_chars, join_with, seqs_of, string_of};

verus! {

/// The session's network mode.
#[derive(Debug)]
pub enum NetMode {
    /// No network at all.
    Off,
    /// Egress through the relay to the listed domains.
    Allowlist(Vec<String>),
    /// Egress through the relay to the listed domain and port pairs.
    Strict(Vec<NetRule>),
    /// Egress decided per destination by asking the user.
    Ask,
}

/// The texts of a list of strings.
pub open spec fn texts(v: Seq<String>) -> Seq<Seq<char>> {
    v.map_values(|x: String| x@)
}

impl NetMode {
    /// The mode as reports name it: `off`, `allowlist:` and the domains
    /// joined by commas, `strict` or `ask`.
    pub open spec fn label_spec(&self) -> Seq<char> {
        match self {
            NetMode::Off => "off"@,
            NetMode::Allowlist(d) => "allowlist:"@ + join_with(texts(d@), ','),
            NetMode::Strict(_) => "strict"@,
            NetMode::Ask => "ask"@,
        }
    }

    /// The mode's report label.
    pub fn label(&self) -> (l: String)
        ensures
            l@ == self.label_spec(),
    {
        match self {
            NetMode::Off => "off".to_owned(),
            NetMode::Allowlist(domains) => {
                let mut parts: Vec<Vec<char>> = Vec::new();
                let mut i: usize = 0;
                while i < domains.len()
                    invariant
                        i <= domains.len(),
                        seqs_of(parts@) == texts(domains@).take(i as int),
                    decreases domains.len() - i,
                {
                    let ghost prev = parts@;
                    let piece = chars_of(domains[i].as_str());
                    parts.push(piece);
                    assert(seqs_of(parts@) =~= seqs_of(prev).push(domains@[i as int]@));
                    assert(texts(domains@).take(i + 1) =~= texts(domains@).take(i as int).push(
                        domains@[i as int]@,
                    ));
                    i += 1;
                }
                assert(texts(domains@).take(domains.len() as int) =~= texts(domains@));
                let mut out = chars_of("allowlist:");
                let joined = join_chars(&parts, ',');
                append_chars(&mut out, joined.as_slice());
                string_of(out.as_slice())
            },
            NetMode::Strict(_) => "strict".to_owned(),
            NetMode::Ask => "ask".to_owned(),
        }
    }
}

/// The macOS Seatbelt backend.
#[derive(Debug)]
pub struct MacosSandbox {
    pub net: NetMode,
}

/// Why the macOS backend refuses to start the agent.
#[derive(Debug, Clone, Copy, PartialEq, Eq, Structural)]
pub enum MacosRefusal {
    /// Neither the native Seatbelt call nor `sandbox-exec` exists.
    NoSeatbelt,
    /// `--net=allowlist` needs the Linux relay.
    AllowlistUnsupported,
    /// `--net=strict` needs the Linux relay.
    StrictUnsupported,
}

impl MacosSandbox {
    /// The backend for network mode `net`.
    pub fn new(net: NetMode) -> (s: Self)
        ensures
            s.net == net,
    {
        MacosSandbox { net }
    }

    /// Whether Seatbelt is available: the native call (`native`) or the
    /// legacy `/usr/bin/sandbox-exec` runner (`legacy_runner`) exists.
    pub fn seatbelt_available(native: bool, legacy_runner: bool) -> (r: bool)
        ensures
            r == (native || legacy_runner),
    {
        native || legacy_runner
    }

    /// The checks made before forking the agent: Seatbelt must exist, and the
    /// relay network modes are refused rather than silently weakened.
    pub fn check_spawn(&self, seatbelt: bool) -> (r: Result<(), MacosRefusal>)
        ensures
            r == if !seatbelt {
                Err(MacosRefusal::NoSeatbelt)
            } else if self.net is Allowlist {
                Err(MacosRefusal::AllowlistUnsupported)
            } else if self.net is Strict {
                Err(MacosRefusal::StrictUnsupported)
            } else {
                Ok(())
            },
    {
        if !seatbelt {
            return Err(MacosRefusal::NoSeatbelt);
        }
        match &self.net {
            NetMode::Allowlist(_) => Err(MacosRefusal::AllowlistUnsupported),
            NetMode::Strict(_) => Err(MacosRefusal::StrictUnsupported),
            _ => Ok(()),
        }
    }
}

/// The machine the session runs on, with what was probed of it.
#[derive(Debug)]
pub enum Host {
    /// Linux, with its probed capabilities.
    Linux(Probe),
    /// macOS.
    Macos,
    /// A platform without an enforcement backend.
    Unsupported,
}

/// Selected enforcement backend for this session.
#[derive(Debug)]
pub enum Backend {
    Linux(Box<LinuxSandbox>),
    Macos(Box<MacosSandbox>),
}

/// Why no backend was selected (the agent does not run).
#[derive(Debug, Clone, PartialEq, Eq)]
pub enum BackendError {
    /// `--backend wsl2` off Windows.
    Wsl2OnlyOnWindows,
    /// `--backend win-sandbox` off Windows.
    WinSandboxOnlyOnWindows,
    /// A backend name nobody knows.
    UnknownBackend(String),
    /// The Linux tier could not be selected.
    Tier(TierError),
    /// The platform has no backend.
    UnsupportedPlatform,
}

impl BackendError {
    /// What the operator is told.
    pub fn message(&self) -> (m: String)
        ensures
            m@ == match self {
                BackendError::Wsl2OnlyOnWindows => "--backend wsl2 is only available on Windows (WSL2 host)\naction: use `--backend auto` on this operating system; run `vetto doctor` for supported backends"@,
                BackendError::WinSandboxOnlyOnWindows => "--backend win-sandbox is only available on Windows\naction: use `--backend auto` or `--backend process` on this operating system; run `vetto doctor` for supported backends"@,
                BackendError::UnknownBackend(n) => "unknown backend '"@ + n@
                    + "'; valid backends: auto, process, wsl2, win-sandbox\naction: select a valid backend or omit the flag; run `vetto doctor` for the full capability picture"@,
                BackendError::Tier(t) => t.message_spec(),
                BackendError::UnsupportedPlatform => "unsupported platform: this platform"@,
            },
    {
        match self {
            BackendError::Wsl2OnlyOnWindows => "--backend wsl2 is only available on Windows (WSL2 host)\naction: use `--backend auto` on this operating system; run `vetto doctor` for supported backends".to_owned(),
            BackendError::WinSandboxOnlyOnWindows => "--backend win-sandbox is only available on Windows\naction: use `--backend auto` or `--backend process` on this operating system; run `vetto doctor` for supported backends".to_owned(),
            BackendError::UnknownBackend(n) => {
                let mut m = chars_of("unknown backend '");
                let nc = chars_of(n.as_str());
                append_chars(&mut m, nc.as_slice());
                let tail = chars_of("'; valid backends: auto, process, wsl2, win-sandbox\naction: select a valid backend or omit the flag; run `vetto doctor` for the full capability picture");
                append_chars(&mut m, tail.as_slice());
                string_of(m.as_slice())
            },
            BackendError::Tier(t) => t.message(),
            BackendError::UnsupportedPlatform => "unsupported platform: this platform".to_owned(),
        }
    }
}

/// Backend names that select the automatic choice.
pub open spec fn automatic_name(name: Seq<char>) -> bool {
    name == "auto"@ || name == "default"@ || name == "process"@
}

/// Backend names of the Windows Sandbox backend.
pub open spec fn win_sandbox_name(name: Seq<char>) -> bool {
    name == "win-sandbox"@ || name == "windows-sandbox"@
}

/// The outcome of the automatic choice on `host` for network mode `net`.
pub open spec fn detected_on(host: Host, net: NetMode, observe_seccomp: bool, r: Result<Backend, BackendError>) -> bool {
    match host {
        Host::Linux(p) => match r {
            Ok(Backend::Linux(s)) => pick_tier_spec(&p) == Ok::<Tier, TierError>(s.tier)
                && s.observe_seccomp == observe_seccomp && s.probe == p && s.net == net,
            Ok(Backend::Macos(_)) => false,
            Err(e) => match pick_tier_spec(&p) {
                Err(te) => e == BackendError::Tier(te),
                Ok(_) => false,
            },
        },
        Host::Macos => r matches Ok(Backend::Macos(m)) && m.net == net,
        Host::Unsupported => r == Err::<Backend, BackendError>(BackendError::UnsupportedPlatform),
    }
}

fn is_name(name: &str, lit: &str) -> (r: bool)
    ensures
        r == (name@ == lit@),
{
    let a = chars_of(name);
    let b = chars_of(lit);
    crate::text::chars_eq(a.as_slice(), b.as_slice())
}

impl Backend {
    /// Detects the strongest usable backend on `host`. Fails closed.
    pub fn detect(net: NetMode, observe_seccomp: bool, host: Host) -> (r: Result<Self, BackendError>)
        ensures
            detected_on(host, net, observe_seccomp, r),
    {
        Self::detect_with_backend(net, observe_seccomp, None, host)
    }

    /// Detects the requested backend, or the strongest usable one for
    /// `auto`, `default`, `process` or no name. Fails closed: the Windows
    /// backends are refused off Windows, and unknown names are refused.
    pub fn detect_with_backend(
        net: NetMode,
        observe_seccomp: bool,
        backend_name: Option<&str>,
        host: Host,
    ) -> (r: Result<Self, BackendError>)
        ensures
            match backend_name {
                None => detected_on(host, net, observe_seccomp, r),
                Some(n) => if automatic_name(n@) {
                    detected_on(host, net, observe_seccomp, r)
                } else if n@ == "wsl2"@ {
                    r == Err::<Backend, BackendError>(BackendError::Wsl2OnlyOnWindows)
                } else if win_sandbox_name(n@) {
                    r == Err::<Backend, BackendError>(BackendError::WinSandboxOnlyOnWindows)
                } else {
                    r matches Err(BackendError::UnknownBackend(m)) && m@ == n@
                },
            },
    {
        if let Some(name) = backend_name {
            if is_name(name, "auto") || is_name(name, "default") || is_name(name, "process") {
            } else if is_name(name, "wsl2") {
                return Err(BackendError::Wsl2OnlyOnWindows);
            } else if is_name(name, "win-sandbox") || is_name(name, "windows-sandbox") {
                return Err(BackendError::WinSandboxOnlyOnWindows);
            } else {
                return Err(BackendError::UnknownBackend(name.to_owned()));
            }
        }
        match host {
            Host::Linux(probe) => match pick_tier(&probe) {
                Ok(tier) => Ok(Backend::Linux(Box::new(LinuxSandbox { probe, tier, net, observe_seccomp }))),
                Err(e) => Err(BackendError::Tier(e)),
            },
            Host::Macos => Ok(Backend::Macos(Box::new(MacosSandbox::new(net)))),
            Host::Unsupported => Err(BackendError::UnsupportedPlatform),
        }
    }

    /// The enforcement tier: the Linux tier, none for macOS.
    pub fn tier(&self) -> (t: Option<Tier>)
        ensures
            t == match self {
                Backend::Linux(s) => Some(s.tier),
                Backend::Macos(_) => None::<Tier>,
            },
    {
        match self {
            Backend::Linux(s) => Some(s.tier),
            Backend::Macos(_) => None,
        }
    }

    /// A one-line description of the backend for reports.
    pub fn describe(&self) -> (d: String)
        ensures
            d@ == describe_spec(self),
    {
        match self {
            Backend::Linux(s) => describe_linux(s),
            Backend::Macos(_) => "macos seatbelt (deprecated sandbox-exec, works today)".to_owned(),
        }
    }
}

/// What tier selection gives for a probe.
pub open spec fn pick_tier_spec(probe: &Probe) -> Result<Tier, TierError> {
    if probe.landlock_abi is None {
        Err(TierError::NoLandlock)
    } else if probe.userns_available {
        Ok(Tier::Full)
    } else if probe.seccomp_filter_available {
        Ok(Tier::FsOnly)
    } else {
        Err(TierError::NoTier)
    }
}

/// `true` or `false`.
pub open spec fn bool_text(b: bool) -> Seq<char> {
    if b {
        "true"@
    } else {
        "false"@
    }
}

/// `Some(n)` or `None`, as `{:?}` prints an `Option<u32>`.
pub open spec fn abi_text(a: Option<u32>) -> Seq<char> {
    match a {
        Some(n) => "Some("@ + decimal(n as nat) + ")"@,
        None => "None"@,
    }
}

/// The description of a backend.
pub open spec fn describe_spec(b: &Backend) -> Seq<char> {
    match b {
        Backend::Linux(s) => linux_description(s),
        Backend::Macos(_) => "macos seatbelt (deprecated sandbox-exec, works today)"@,
    }
}

/// The description of a Linux backend.
pub open spec fn linux_description(s: &LinuxSandbox) -> Seq<char> {
    "linux tier="@ + s.tier.label_spec() + " (landlock ABI "@ + abi_text(
            s.probe.landlock_abi,
        ) + ", userns="@ + bool_text(s.probe.userns_available) + ", full-stack="@ + bool_text(
            s.tier == Tier::Full,
        ) + ", seccomp-notify="@ + bool_text(s.probe.seccomp_notify_available)
            + ", audit-feed="@ + bool_text(s.probe.audit_feed_readable) + ")"@
}

fn push_str(out: &mut Vec<char>, s: &str)
    ensures
        final(out)@ == old(out)@ + s@,
{
    let c = chars_of(s);
    append_chars(out, c.as_slice());
}

fn push_bool(out: &mut Vec<char>, b: bool)
    ensures
        final(out)@ == old(out)@ + bool_text(b),
{
    if b {
        push_str(out, "true");
    } else {
        push_str(out, "false");
    }
}

fn describe_linux(s: &LinuxSandbox) -> (d: String)
    ensures
        d@ == linux_description(s),
{
    let mut out: Vec<char> = Vec::new();
    push_str(&mut out, "linux tier=");
    push_str(&mut out, s.tier.label());
    push_str(&mut out, " (landlock ABI ");
    match s.probe.landlock_abi {
        Some(n) => {
            push_str(&mut out, "Some(");
            let d = decimal_chars(n as u64);
            append_chars(&mut out, d.as_slice());
            push_str(&mut out, ")");
        },
        None => push_str(&mut out, "None"),
    }
    push_str(&mut out, ", userns=");
    push_bool(&mut out, s.probe.userns_available);
    push_str(&mut out, ", full-stack=");
    push_bool(&mut out, s.tier == Tier::Full);
    push_str(&mut out, ", seccomp-notify=");
    push_bool(&mut out, s.probe.seccomp_notify_available);
    push_str(&mut out, ", audit-feed=");
    push_bool(&mut out, s.probe.audit_feed_readable);
    push_str(&mut out, ")");
    assert(out@ =~= linux_description(s));
    string_of(out.as_slice())
}

} // verus!
