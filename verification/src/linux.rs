//! Linux backend: tier selection from the probed capabilities, and the
//! seccomp, Landlock, audit, relay and process-tree logic.
use vstd::prelude::*;

pub mod audit_reader;
pub mod cgroup;
pub mod debug_guard;
pub mod ebpf_redirect;
pub mod landlock;
pub mod limits;
pub mod mounts;
pub mod namespaces;
pub mod net_relay;
pub mod observe_seccomp;
pub mod proctrack;
pub mod relay_proto;
pub mod seccomp_netblock;
pub mod setup;
pub mod vfs_overlays;
pub mod visibility;

verus! {

/// Enforcement tiers.
#[derive(Debug, Clone, Copy, PartialEq, Eq, Structural)]
pub enum Tier {
    /// Landlock plus user, mount, network and pid namespaces.
    Full,
    /// Landlock plus the seccomp network kill-switch, without namespaces.
    FsOnly,
    /// seccomp only.
    Seccomp,
}

impl Tier {
    /// The tier's name as reports and policies write it.
    pub open spec fn label_spec(self) -> Seq<char> {
        match self {
            Tier::Full => "full"@,
            Tier::FsOnly => "fs-only"@,
            Tier::Seccomp => "seccomp"@,
        }
    }

    /// The tier's name.
    pub fn label(&self) -> (s: &'static str)
        ensures
            s@ == self.label_spec(),
    {
        match self {
            Tier::Full => "full",
            Tier::FsOnly => "fs-only",
            Tier::Seccomp => "seccomp",
        }
    }
}

/// Capabilities of this machine, as probed.
#[derive(Debug, Clone, PartialEq, Eq)]
pub struct Probe {
    pub kernel: String,
    pub landlock_abi: Option<u32>,
    pub userns_available: bool,
    pub seccomp_filter_available: bool,
    pub seccomp_notify_available: bool,
    pub audit_feed_readable: bool,
}

/// Why no tier can be selected (the agent does not run).
#[derive(Debug, Clone, Copy, PartialEq, Eq, Structural)]
pub enum TierError {
    /// Landlock is unavailable.
    NoLandlock,
    /// Neither user namespaces nor seccomp filters are available.
    NoTier,
}

impl TierError {
    /// The text the operator is told.
    pub open spec fn message_spec(&self) -> Seq<char> {
        match self {
            TierError::NoLandlock => "Landlock is unavailable on this kernel (needs >= 5.13 with landlock enabled); refusing to run the agent unsandboxed (fail-closed)"@,
            TierError::NoTier => "no enforcement tier possible: unprivileged user namespaces are disabled AND seccomp filters are unavailable; refusing to run unsandboxed (fail-closed)"@,
        }
    }

    /// What the operator is told.
    pub fn message(&self) -> (m: String)
        ensures
            m@ == self.message_spec(),
    {
        match self {
            TierError::NoLandlock => "Landlock is unavailable on this kernel (needs >= 5.13 with landlock enabled); refusing to run the agent unsandboxed (fail-closed)".to_owned(),
            TierError::NoTier => "no enforcement tier possible: unprivileged user namespaces are disabled AND seccomp filters are unavailable; refusing to run unsandboxed (fail-closed)".to_owned(),
        }
    }
}

/// Fail-closed tier selection: Landlock is required; user namespaces give
/// the full tier, else seccomp filters give the filesystem-only tier.
pub fn pick_tier(probe: &Probe) -> (r: Result<Tier, TierError>)
    ensures
        r == if probe.landlock_abi is None {
            Err(TierError::NoLandlock)
        } else if probe.userns_available {
            Ok(Tier::Full)
        } else if probe.seccomp_filter_available {
            Ok(Tier::FsOnly)
        } else {
            Err(TierError::NoTier)
        },
{
    if probe.landlock_abi.is_none() {
        return Err(TierError::NoLandlock);
    }
    if probe.userns_available {
        return Ok(Tier::Full);
    }
    if probe.seccomp_filter_available {
        return Ok(Tier::FsOnly);
    }
    Err(TierError::NoTier)
}

/// The Linux sandbox for one session.
#[derive(Debug)]
pub struct LinuxSandbox {
    pub probe: Probe,
    pub tier: Tier,
    pub net: crate::backend::NetMode,
    pub observe_seccomp: bool,
}

} // verus!
