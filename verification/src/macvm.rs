//! macOS uniform VM backend: the agent runs as a Linux `vetto` inside a
//! guest VM; the host only orchestrates (start the VM, sync the workspace,
//! exec over ssh, sync back), failing closed everywhere.
use vstd::prelude::*;
use crate::text::{chars_of, string_of, trim, trim_ws};
use crate::paths::{path_starts_with, starts_with_path};

pub mod exec;
pub mod sync;
pub mod vm;

verus! {

/// Config file name (under `~/.vetto/`).
pub const CONFIG_FILE: &'static str = "mac-vm.toml";

/// Environment override for the helper binary.
pub const HELPER_ENV: &'static str = "VETTO_VZ_HELPER";

/// Environment override for the guest ssh target.
pub const SSH_TARGET_ENV: &'static str = "VETTO_MACVM_SSH";

/// Default helper binary name.
pub const DEFAULT_HELPER: &'static str = "vetto-vz";

/// Guest-side workspace mount point.
pub const GUEST_WORKSPACE: &'static str = "/mnt/vetto-workspace";

/// Guest-side Linux vetto binary.
pub const GUEST_VETTO: &'static str = "/usr/local/bin/vetto";

/// Default seconds to wait for the guest after start.
pub const DEFAULT_IP_WAIT_SECS: u64 = 120;

/// Static VM connection config.
#[derive(Debug, Clone, PartialEq, Eq)]
pub struct MacVmConfig {
    /// ssh target, e.g. `vetto@192.168.64.2`.
    pub ssh_target: String,
    /// ssh private key path (optional).
    pub ssh_key: Option<String>,
    /// Helper binary for the VM lifecycle.
    pub helper: String,
    /// Seconds to wait for the guest after start.
    pub ip_wait_secs: u64,
}

impl Default for MacVmConfig {
    fn default() -> (c: Self)
        ensures
            c.ssh_target@ == Seq::<char>::empty(),
            c.ssh_key is None,
            c.helper@ == DEFAULT_HELPER@,
            c.ip_wait_secs == DEFAULT_IP_WAIT_SECS,
    {
        MacVmConfig {
            ssh_target: String::new(),
            ssh_key: None,
            helper: DEFAULT_HELPER.to_owned(),
            ip_wait_secs: DEFAULT_IP_WAIT_SECS,
        }
    }
}

/// Why a config is refused.
#[derive(Debug, Clone, Copy, PartialEq, Eq, Structural)]
pub enum ConfigError {
    /// No ssh target (blank after trimming).
    MissingSshTarget,
    /// `ip_wait_secs` is zero.
    ZeroIpWait,
}

impl ConfigError {
    /// The message shown to the user.
    pub fn message(&self) -> (m: String)
        ensures
            m@ == match self {
                ConfigError::MissingSshTarget => "mac-vm: config has no ssh_target\naction: write ~/.vetto/mac-vm.toml with `ssh_target = \"user@ip\"` or set VETTO_MACVM_SSH; run `vetto doctor` for the full capability picture"@,
                ConfigError::ZeroIpWait => "mac-vm: ip_wait_secs must be > 0"@,
            },
    {
        match self {
            ConfigError::MissingSshTarget => "mac-vm: config has no ssh_target\naction: write ~/.vetto/mac-vm.toml with `ssh_target = \"user@ip\"` or set VETTO_MACVM_SSH; run `vetto doctor` for the full capability picture".to_owned(),
            ConfigError::ZeroIpWait => "mac-vm: ip_wait_secs must be > 0".to_owned(),
        }
    }
}

/// The value that wins: the override when it is present and not blank,
/// else the configured one.
pub open spec fn override_or(over: Option<Seq<char>>, configured: Seq<char>) -> Seq<char> {
    match over {
        Some(v) => if trim_ws(v).len() > 0 {
            v
        } else {
            configured
        },
        None => configured,
    }
}

impl MacVmConfig {
    /// Accepts a config with a non-blank ssh target and a positive wait.
    pub fn validate(&self) -> (r: Result<(), ConfigError>)
        ensures
            r == if trim_ws(self.ssh_target@).len() == 0 {
                Err(ConfigError::MissingSshTarget)
            } else if self.ip_wait_secs == 0 {
                Err(ConfigError::ZeroIpWait)
            } else {
                Ok(())
            },
    {
        let t = chars_of(self.ssh_target.as_str());
        if trim(t.as_slice()).len() == 0 {
            return Err(ConfigError::MissingSshTarget);
        }
        if self.ip_wait_secs == 0 {
            return Err(ConfigError::ZeroIpWait);
        }
        Ok(())
    }

    /// The helper binary, given the value of `VETTO_VZ_HELPER` if set.
    pub fn effective_helper_with(&self, env_override: Option<&str>) -> (h: String)
        ensures
            h@ == override_or(crate::linux::net_relay::reply_view(env_override), self.helper@),
    {
        pick_override(env_override, &self.helper)
    }

    /// The ssh target, given the value of `VETTO_MACVM_SSH` if set.
    pub fn effective_ssh_target_with(&self, env_override: Option<&str>) -> (t: String)
        ensures
            t@ == override_or(crate::linux::net_relay::reply_view(env_override), self.ssh_target@),
    {
        pick_override(env_override, &self.ssh_target)
    }
}

fn pick_override(over: Option<&str>, configured: &String) -> (r: String)
    ensures
        r@ == override_or(crate::linux::net_relay::reply_view(over), configured@),
{
    match over {
        Some(v) => {
            let cs = chars_of(v);
            if trim(cs.as_slice()).len() > 0 {
                v.to_owned()
            } else {
                configured.clone()
            }
        },
        None => configured.clone(),
    }
}

/// Probe result for `vetto doctor` and auto-detection.
#[derive(Debug, Clone, PartialEq, Eq)]
pub struct Availability {
    pub available: bool,
    pub reason: String,
}

impl Availability {
    /// The VM is usable.
    pub fn ok() -> (a: Self)
        ensures
            a.available,
            a.reason@ == "VM reachable over ssh; Linux Tier-1 applies inside the guest"@,
    {
        Availability {
            available: true,
            reason: "VM reachable over ssh; Linux Tier-1 applies inside the guest".to_owned(),
        }
    }

    /// The VM is not usable, for `reason`.
    pub fn missing(reason: String) -> (a: Self)
        ensures
            !a.available,
            a.reason@ == reason@,
    {
        Availability { available: false, reason }
    }
}

/// The uniform backend: config and the network mode label.
pub struct MacVmSandbox {
    pub cfg: MacVmConfig,
    pub net: String,
}

impl MacVmSandbox {
    /// The backend for `cfg` and network mode `net`.
    pub fn new(net: String, cfg: MacVmConfig) -> (s: Self)
        ensures
            s.cfg == cfg,
            s.net@ == net@,
    {
        MacVmSandbox { cfg, net }
    }

    /// Availability from what the probe observed: whether the helper is
    /// present, its status (or the query failure), and the ssh probe.
    pub fn probe_availability_with(
        helper: &str,
        helper_present: bool,
        status: Result<crate::macvm::vm::VmStatus, String>,
        ssh: Result<(), String>,
    ) -> (a: Availability)
        ensures
            a.available == (helper_present && (status matches Ok(s) && s.running) && ssh is Ok),
    {
        if !helper_present {
            let mut m = chars_of("helper `");
            let h = chars_of(helper);
            crate::text::append_chars(&mut m, h.as_slice());
            let tail = chars_of("` not found in PATH — install/start the VM first");
            crate::text::append_chars(&mut m, tail.as_slice());
            return Availability::missing(string_of(m.as_slice()));
        }
        match status {
            Ok(s) => {
                if !s.running {
                    let mut m = chars_of("VM not running (state: ");
                    let st = chars_of(s.state.as_str());
                    crate::text::append_chars(&mut m, st.as_slice());
                    let tail = chars_of(") — start it first");
                    crate::text::append_chars(&mut m, tail.as_slice());
                    return Availability::missing(string_of(m.as_slice()));
                }
            },
            Err(e) => {
                let mut m = chars_of("VM helper query failed: ");
                let ec = chars_of(e.as_str());
                crate::text::append_chars(&mut m, ec.as_slice());
                return Availability::missing(string_of(m.as_slice()));
            },
        }
        match ssh {
            Ok(()) => Availability::ok(),
            Err(e) => {
                let mut m = chars_of("ssh unreachable: ");
                let ec = chars_of(e.as_str());
                crate::text::append_chars(&mut m, ec.as_slice());
                Availability::missing(string_of(m.as_slice()))
            },
        }
    }
}

/// Accepts `project` when it is `cwd` or lies inside it (component-wise);
/// a project outside the working directory's tree, a containing one
/// included, would sync more than the current tree, and is refused with a
/// message naming both paths.
pub fn ensure_inside(project: &str, cwd: &str) -> (r: Result<(), String>)
    ensures
        r is Ok <==> path_starts_with(project@, cwd@),
        r matches Err(m) ==> m@ == "mac-vm: refusing to sync workspace outside the current tree (project="@
            + project@ + ", cwd="@ + cwd@ + ")\naction: run vetto from inside the project directory"@,
{
    let p = chars_of(project);
    let c = chars_of(cwd);
    if starts_with_path(p.as_slice(), c.as_slice()) {
        Ok(())
    } else {
        let mut m = chars_of("mac-vm: refusing to sync workspace outside the current tree (project=");
        crate::text::append_chars(&mut m, p.as_slice());
        let mid = chars_of(", cwd=");
        crate::text::append_chars(&mut m, mid.as_slice());
        crate::text::append_chars(&mut m, c.as_slice());
        let tail = chars_of(")\naction: run vetto from inside the project directory");
        crate::text::append_chars(&mut m, tail.as_slice());
        Err(crate::text::string_of(m.as_slice()))
    }
}

/// The tier that applies inside the guest: always the full Linux tier.
pub fn guest_tier() -> (t: crate::linux::Tier)
    ensures
        t == crate::linux::Tier::Full,
{
    crate::linux::Tier::Full
}

} // verus!
