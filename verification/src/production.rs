//! The production boundary's honest capability mapping: which security
//! capabilities a tier and network mode make mandatory for a PASS, which of
//! them this host can actually install, and whether a PASS is possible at all.
use vstd::prelude::*;
use crate::backend::NetMode;
use crate::linux::Tier;

verus! {

/// A security capability the production boundary reports on.
#[derive(Debug, Clone, Copy, PartialEq, Eq, Hash, Structural)]
pub enum SecurityCapability {
    FilesystemIsolation,
    ExecutionRootIsolation,
    NetworkIsolation,
    ProcessIsolation,
    ProcessTreeContainment,
    ResourceLimits,
    SyscallRestriction,
    HostEvidence,
}

/// Every capability, in report order.
pub open spec fn all_caps() -> Seq<SecurityCapability> {
    seq![
        SecurityCapability::FilesystemIsolation,
        SecurityCapability::ExecutionRootIsolation,
        SecurityCapability::NetworkIsolation,
        SecurityCapability::ProcessIsolation,
        SecurityCapability::ProcessTreeContainment,
        SecurityCapability::ResourceLimits,
        SecurityCapability::SyscallRestriction,
        SecurityCapability::HostEvidence,
    ]
}

impl SecurityCapability {
    /// Every capability, in report order.
    pub fn all() -> (v: Vec<SecurityCapability>)
        ensures
            v@ == all_caps(),
    {
        let v = vec![
            SecurityCapability::FilesystemIsolation,
            SecurityCapability::ExecutionRootIsolation,
            SecurityCapability::NetworkIsolation,
            SecurityCapability::ProcessIsolation,
            SecurityCapability::ProcessTreeContainment,
            SecurityCapability::ResourceLimits,
            SecurityCapability::SyscallRestriction,
            SecurityCapability::HostEvidence,
        ];
        assert(v@ =~= all_caps());
        v
    }
}

/// The operating system the boundary runs on.
#[derive(Debug, Clone, Copy, PartialEq, Eq, Structural)]
pub enum HostPlatform {
    Linux,
    Macos,
    Windows,
    Other,
}

/// What was probed of the host: Landlock and seccomp on Linux, Seatbelt on
/// macOS, the sandboxed process creation and kill-on-close Job Objects on
/// Windows. Each fact only counts on its own platform.
#[derive(Debug, Clone, Copy, PartialEq, Eq, Structural)]
pub struct CapabilityProbe {
    pub platform: HostPlatform,
    pub landlock: bool,
    pub seccomp: bool,
    pub seatbelt: bool,
    pub win_sandboxed_process: bool,
    pub win_job_kill_on_close: bool,
}

/// The explicit per-tier capability mapping: `enforced` lists what the
/// boundary can install here, `mandatory` what a PASS needs on this tier and
/// network mode, `unsupported` the rest of all capabilities, and
/// `allows_pass_possible` whether every mandatory capability is enforced.
#[derive(Debug, Clone)]
pub struct TierMapping {
    pub tier_label: String,
    pub net_label: String,
    pub mandatory: Vec<SecurityCapability>,
    pub enforced: Vec<SecurityCapability>,
    pub unsupported: Vec<SecurityCapability>,
    pub allows_pass_possible: bool,
    pub notes: String,
}

/// `s` when `b` holds, else nothing.
pub open spec fn when(b: bool, s: Seq<SecurityCapability>) -> Seq<SecurityCapability> {
    if b {
        s
    } else {
        Seq::empty()
    }
}

/// What the boundary can install on the probed host.
pub open spec fn enforced_spec(p: CapabilityProbe, net_off: bool) -> Seq<SecurityCapability> {
    match p.platform {
        HostPlatform::Linux => when(
            p.landlock,
            seq![SecurityCapability::FilesystemIsolation, SecurityCapability::ExecutionRootIsolation],
        ) + when(net_off && p.seccomp, seq![SecurityCapability::NetworkIsolation]) + when(
            p.seccomp,
            seq![SecurityCapability::SyscallRestriction],
        ) + seq![
            SecurityCapability::ProcessIsolation,
            SecurityCapability::ProcessTreeContainment,
            SecurityCapability::ResourceLimits,
            SecurityCapability::HostEvidence,
        ],
        HostPlatform::Macos => when(
            p.seatbelt,
            seq![SecurityCapability::FilesystemIsolation] + when(
                net_off,
                seq![SecurityCapability::NetworkIsolation],
            ) + seq![
                SecurityCapability::ProcessIsolation,
                SecurityCapability::ProcessTreeContainment,
                SecurityCapability::ResourceLimits,
                SecurityCapability::HostEvidence,
            ],
        ),
        HostPlatform::Windows => when(
            p.win_sandboxed_process,
            seq![SecurityCapability::FilesystemIsolation, SecurityCapability::ProcessIsolation]
                + when(net_off, seq![SecurityCapability::NetworkIsolation]),
        ) + when(p.win_job_kill_on_close, seq![SecurityCapability::ProcessTreeContainment])
            + seq![SecurityCapability::HostEvidence],
        HostPlatform::Other => Seq::empty(),
    }
}

/// Every capability but network isolation, for the containing tiers
/// without `--net=off`.
pub open spec fn containment_caps() -> Seq<SecurityCapability> {
    seq![
        SecurityCapability::FilesystemIsolation,
        SecurityCapability::ExecutionRootIsolation,
        SecurityCapability::ProcessIsolation,
        SecurityCapability::ProcessTreeContainment,
        SecurityCapability::ResourceLimits,
        SecurityCapability::SyscallRestriction,
        SecurityCapability::HostEvidence,
    ]
}

/// What a PASS needs: everything for a Landlock tier with the network off,
/// all but network isolation for a Landlock tier with a relay, process,
/// tree, resources, syscalls and host evidence (plus network with it off)
/// for the seccomp tier; with no tier, the platform's own set.
pub open spec fn mandatory_spec(tier: Option<Tier>, net_off: bool, platform: HostPlatform) -> Seq<
    SecurityCapability,
> {
    match tier {
        Some(Tier::Full) | Some(Tier::FsOnly) => if net_off {
            all_caps()
        } else {
            containment_caps()
        },
        Some(Tier::Seccomp) => when(net_off, seq![SecurityCapability::NetworkIsolation]) + seq![
            SecurityCapability::ProcessIsolation,
            SecurityCapability::ProcessTreeContainment,
            SecurityCapability::ResourceLimits,
            SecurityCapability::SyscallRestriction,
            SecurityCapability::HostEvidence,
        ],
        None => match platform {
            HostPlatform::Macos => seq![
                SecurityCapability::FilesystemIsolation,
                SecurityCapability::NetworkIsolation,
                SecurityCapability::ProcessIsolation,
                SecurityCapability::ProcessTreeContainment,
                SecurityCapability::HostEvidence,
            ],
            HostPlatform::Linux => containment_caps() + when(
                net_off,
                seq![SecurityCapability::NetworkIsolation],
            ),
            _ => seq![SecurityCapability::HostEvidence],
        },
    }
}

/// The capabilities of `all_caps` that `enforced` lacks, in report order.
pub open spec fn unsupported_spec(enforced: Seq<SecurityCapability>) -> Seq<SecurityCapability> {
    all_caps().filter(|c: SecurityCapability| !enforced.contains(c))
}

/// Whether every mandatory capability is enforced.
pub open spec fn pass_possible(mandatory: Seq<SecurityCapability>, enforced: Seq<SecurityCapability>) -> bool {
    forall|i: int| 0 <= i < mandatory.len() ==> enforced.contains(#[trigger] mandatory[i])
}

/// The label of a missing tier on each platform.
pub open spec fn default_tier_label(platform: HostPlatform) -> Seq<char> {
    match platform {
        HostPlatform::Linux => "seccomp"@,
        HostPlatform::Macos => "seatbelt"@,
        HostPlatform::Windows => "job"@,
        HostPlatform::Other => "unsupported"@,
    }
}

/// The fixed explanation attached to every mapping.
pub open spec fn mapping_notes() -> Seq<char> {
    "fs-only never silently becomes network=off; relay modes keep the existing relay architecture and report network=unsupported through the 3B boundary (UnixOnly is not an allowlist relay, no 3C parity claimed there); seccomp tier has no filesystem/exec-root isolation."@
}

/// The mapping's honesty: with a relay network mode nothing claims network
/// isolation and no tier makes it mandatory; the seccomp tier never makes
/// filesystem or execution-root isolation mandatory; and every capability
/// is either enforced or listed as unsupported, never both.
pub proof fn lemma_mapping_is_honest(tier: Option<Tier>, p: CapabilityProbe, net_off: bool, c: SecurityCapability)
    ensures
        !net_off ==> !enforced_spec(p, net_off).contains(SecurityCapability::NetworkIsolation),
        !net_off && tier is Some ==> !mandatory_spec(tier, net_off, p.platform).contains(
            SecurityCapability::NetworkIsolation,
        ),
        tier == Some(Tier::Seccomp) ==> !mandatory_spec(tier, net_off, p.platform).contains(
            SecurityCapability::FilesystemIsolation,
        ) && !mandatory_spec(tier, net_off, p.platform).contains(SecurityCapability::ExecutionRootIsolation),
        all_caps().contains(c) ==> (enforced_spec(p, net_off).contains(c) != unsupported_spec(
            enforced_spec(p, net_off),
        ).contains(c)),
{
    let e = enforced_spec(p, net_off);
    let m = mandatory_spec(tier, net_off, p.platform);
    if !net_off {
        assert(!e.contains(SecurityCapability::NetworkIsolation)) by {
            if e.contains(SecurityCapability::NetworkIsolation) {
                let i = choose|i: int| 0 <= i < e.len() && e[i] == SecurityCapability::NetworkIsolation;
                assert(e[i] == SecurityCapability::NetworkIsolation);
            }
        }
        if tier is Some {
            assert(!m.contains(SecurityCapability::NetworkIsolation)) by {
                if m.contains(SecurityCapability::NetworkIsolation) {
                    let i = choose|i: int| 0 <= i < m.len() && m[i] == SecurityCapability::NetworkIsolation;
                    assert(m[i] == SecurityCapability::NetworkIsolation);
                }
            }
        }
    }
    if tier == Some(Tier::Seccomp) {
        assert(!m.contains(SecurityCapability::FilesystemIsolation)) by {
            if m.contains(SecurityCapability::FilesystemIsolation) {
                let i = choose|i: int| 0 <= i < m.len() && m[i] == SecurityCapability::FilesystemIsolation;
                assert(m[i] == SecurityCapability::FilesystemIsolation);
            }
        }
        assert(!m.contains(SecurityCapability::ExecutionRootIsolation)) by {
            if m.contains(SecurityCapability::ExecutionRootIsolation) {
                let i = choose|i: int| 0 <= i < m.len() && m[i] == SecurityCapability::ExecutionRootIsolation;
                assert(m[i] == SecurityCapability::ExecutionRootIsolation);
            }
        }
    }
    if all_caps().contains(c) {
        let pred = |x: SecurityCapability| !e.contains(x);
        let u = unsupported_spec(e);
        assert(u == all_caps().filter(pred));
        if e.contains(c) {
            if u.contains(c) {
                let k = choose|k: int| 0 <= k < u.len() && u[k] == c;
                all_caps().lemma_filter_pred(pred, k);
            }
        } else {
            let i = choose|i: int| 0 <= i < all_caps().len() && all_caps()[i] == c;
            all_caps().lemma_filter_contains(pred, i);
        }
    }
}

fn contains_cap(v: &Vec<SecurityCapability>, c: SecurityCapability) -> (r: bool)
    ensures
        r == v@.contains(c),
{
    let mut i: usize = 0;
    while i < v.len()
        invariant
            i <= v.len(),
            forall|j: int| 0 <= j < i ==> v@[j] != c,
        decreases v.len() - i,
    {
        if v[i] == c {
            return true;
        }
        i += 1;
    }
    false
}

fn push_all(dst: &mut Vec<SecurityCapability>, src: &[SecurityCapability])
    ensures
        final(dst)@ == old(dst)@ + src@,
{
    let mut i: usize = 0;
    while i < src.len()
        invariant
            i <= src.len(),
            dst@ == old(dst)@ + src@.take(i as int),
        decreases src.len() - i,
    {
        dst.push(src[i]);
        assert(old(dst)@ + src@.take(i + 1) =~= (old(dst)@ + src@.take(i as int)).push(src@[i as int]));
        i += 1;
    }
    assert(src@.take(src.len() as int) =~= src@);
}

fn enforced_caps(p: &CapabilityProbe, net_off: bool) -> (v: Vec<SecurityCapability>)
    ensures
        v@ == enforced_spec(*p, net_off),
{
    let mut v: Vec<SecurityCapability> = Vec::new();
    match p.platform {
        HostPlatform::Linux => {
            if p.landlock {
                push_all(&mut v, &[SecurityCapability::FilesystemIsolation, SecurityCapability::ExecutionRootIsolation]);
            }
            if net_off && p.seccomp {
                push_all(&mut v, &[SecurityCapability::NetworkIsolation]);
            }
            if p.seccomp {
                push_all(&mut v, &[SecurityCapability::SyscallRestriction]);
            }
            push_all(
                &mut v,
                &[
                    SecurityCapability::ProcessIsolation,
                    SecurityCapability::ProcessTreeContainment,
                    SecurityCapability::ResourceLimits,
                    SecurityCapability::HostEvidence,
                ],
            );
            assert(v@ =~= enforced_spec(*p, net_off));
        },
        HostPlatform::Macos => {
            if p.seatbelt {
                push_all(&mut v, &[SecurityCapability::FilesystemIsolation]);
                if net_off {
                    push_all(&mut v, &[SecurityCapability::NetworkIsolation]);
                }
                push_all(
                    &mut v,
                    &[
                        SecurityCapability::ProcessIsolation,
                        SecurityCapability::ProcessTreeContainment,
                        SecurityCapability::ResourceLimits,
                        SecurityCapability::HostEvidence,
                    ],
                );
            }
            assert(v@ =~= enforced_spec(*p, net_off));
        },
        HostPlatform::Windows => {
            if p.win_sandboxed_process {
                push_all(&mut v, &[SecurityCapability::FilesystemIsolation, SecurityCapability::ProcessIsolation]);
                if net_off {
                    push_all(&mut v, &[SecurityCapability::NetworkIsolation]);
                }
            }
            if p.win_job_kill_on_close {
                push_all(&mut v, &[SecurityCapability::ProcessTreeContainment]);
            }
            push_all(&mut v, &[SecurityCapability::HostEvidence]);
            assert(v@ =~= enforced_spec(*p, net_off));
        },
        HostPlatform::Other => {
            assert(v@ =~= enforced_spec(*p, net_off));
        },
    }
    v
}

fn mandatory_caps(tier: Option<Tier>, net_off: bool, platform: HostPlatform) -> (v: Vec<SecurityCapability>)
    ensures
        v@ == mandatory_spec(tier, net_off, platform),
{
    let mut v: Vec<SecurityCapability> = Vec::new();
    match tier {
        Some(Tier::Full) | Some(Tier::FsOnly) => {
            if net_off {
                v = SecurityCapability::all();
            } else {
                push_all(
                    &mut v,
                    &[
                        SecurityCapability::FilesystemIsolation,
                        SecurityCapability::ExecutionRootIsolation,
                        SecurityCapability::ProcessIsolation,
                        SecurityCapability::ProcessTreeContainment,
                        SecurityCapability::ResourceLimits,
                        SecurityCapability::SyscallRestriction,
                        SecurityCapability::HostEvidence,
                    ],
                );
            }
            assert(v@ =~= mandatory_spec(tier, net_off, platform));
        },
        Some(Tier::Seccomp) => {
            if net_off {
                push_all(&mut v, &[SecurityCapability::NetworkIsolation]);
            }
            push_all(
                &mut v,
                &[
                    SecurityCapability::ProcessIsolation,
                    SecurityCapability::ProcessTreeContainment,
                    SecurityCapability::ResourceLimits,
                    SecurityCapability::SyscallRestriction,
                    SecurityCapability::HostEvidence,
                ],
            );
            assert(v@ =~= mandatory_spec(tier, net_off, platform));
        },
        None => {
            match platform {
                HostPlatform::Macos => {
                    push_all(
                        &mut v,
                        &[
                            SecurityCapability::FilesystemIsolation,
                            SecurityCapability::NetworkIsolation,
                            SecurityCapability::ProcessIsolation,
                            SecurityCapability::ProcessTreeContainment,
                            SecurityCapability::HostEvidence,
                        ],
                    );
                },
                HostPlatform::Linux => {
                    push_all(
                        &mut v,
                        &[
                            SecurityCapability::FilesystemIsolation,
                            SecurityCapability::ExecutionRootIsolation,
                            SecurityCapability::ProcessIsolation,
                            SecurityCapability::ProcessTreeContainment,
                            SecurityCapability::ResourceLimits,
                            SecurityCapability::SyscallRestriction,
                            SecurityCapability::HostEvidence,
                        ],
                    );
                    if net_off {
                        push_all(&mut v, &[SecurityCapability::NetworkIsolation]);
                    }
                },
                _ => {
                    push_all(&mut v, &[SecurityCapability::HostEvidence]);
                },
            }
            assert(v@ =~= mandatory_spec(tier, net_off, platform));
        },
    }
    v
}

fn unsupported_caps(enforced: &Vec<SecurityCapability>) -> (v: Vec<SecurityCapability>)
    ensures
        v@ == unsupported_spec(enforced@),
{
    let all = SecurityCapability::all();
    let mut v: Vec<SecurityCapability> = Vec::new();
    let mut i: usize = 0;
    let ghost pred = |c: SecurityCapability| !enforced@.contains(c);
    assert(all@.take(0) =~= Seq::<SecurityCapability>::empty());
    while i < all.len()
        invariant
            i <= all.len(),
            all@ == all_caps(),
            pred == (|c: SecurityCapability| !enforced@.contains(c)),
            v@ == all@.take(i as int).filter(pred),
        decreases all.len() - i,
    {
        proof {
            assert(all@.take(i + 1).drop_last() =~= all@.take(i as int));
            reveal(Seq::filter);
            assert(all@.take(i + 1).last() == all@[i as int]);
        }
        if !contains_cap(enforced, all[i]) {
            v.push(all[i]);
        }
        i += 1;
    }
    assert(all@.take(all.len() as int) =~= all@);
    v
}

fn all_enforced(mandatory: &Vec<SecurityCapability>, enforced: &Vec<SecurityCapability>) -> (r: bool)
    ensures
        r == pass_possible(mandatory@, enforced@),
{
    let mut i: usize = 0;
    while i < mandatory.len()
        invariant
            i <= mandatory.len(),
            forall|j: int| 0 <= j < i ==> enforced@.contains(#[trigger] mandatory@[j]),
        decreases mandatory.len() - i,
    {
        if !contains_cap(enforced, mandatory[i]) {
            return false;
        }
        i += 1;
    }
    true
}

/// The honest tier mapping for `tier` and `net` on the probed host; it
/// never claims the strongest configuration the host cannot install.
pub fn prod_tier_mapping(tier: Option<Tier>, net: &NetMode, probe: &CapabilityProbe) -> (m: TierMapping)
    ensures
        m.enforced@ == enforced_spec(*probe, net is Off),
        m.mandatory@ == mandatory_spec(tier, net is Off, probe.platform),
        m.unsupported@ == unsupported_spec(m.enforced@),
        m.allows_pass_possible == pass_possible(m.mandatory@, m.enforced@),
        m.tier_label@ == match tier {
            Some(t) => t.label_spec(),
            None => default_tier_label(probe.platform),
        },
        m.net_label@ == net.label_spec(),
        m.notes@ == mapping_notes(),
{
    let net_off = match net {
        NetMode::Off => true,
        _ => false,
    };
    let enforced = enforced_caps(probe, net_off);
    let unsupported = unsupported_caps(&enforced);
    let tier_label = match tier {
        Some(t) => t.label().to_owned(),
        None => match probe.platform {
            HostPlatform::Linux => "seccomp".to_owned(),
            HostPlatform::Macos => "seatbelt".to_owned(),
            HostPlatform::Windows => "job".to_owned(),
            HostPlatform::Other => "unsupported".to_owned(),
        },
    };
    let mandatory = mandatory_caps(tier, net_off, probe.platform);
    let allows_pass_possible = all_enforced(&mandatory, &enforced);
    let notes = "fs-only never silently becomes network=off; relay modes keep the existing relay architecture and report network=unsupported through the 3B boundary (UnixOnly is not an allowlist relay, no 3C parity claimed there); seccomp tier has no filesystem/exec-root isolation.".to_owned();
    TierMapping {
        tier_label,
        net_label: net.label(),
        mandatory,
        enforced,
        unsupported,
        allows_pass_possible,
        notes,
    }
}

/// Keeping the capabilities that satisfy `pred` keeps a list free of
/// repeats.
proof fn lemma_filter_keeps_distinct(s: Seq<SecurityCapability>, pred: spec_fn(SecurityCapability) -> bool)
    requires
        s.no_duplicates(),
    ensures
        s.filter(pred).no_duplicates(),
    decreases s.len(),
{
    reveal_with_fuel(Seq::filter, 1);
    if s.len() > 0 {
        let rest = s.drop_last();
        assert(rest.no_duplicates());
        lemma_filter_keeps_distinct(rest, pred);
        if pred(s.last()) {
            assert forall|k: int| 0 <= k < rest.filter(pred).len() implies rest.filter(pred)[k] != s.last() by {
                rest.lemma_filter_contains_rev(pred, rest.filter(pred)[k]);
                assert(rest.filter(pred).contains(rest.filter(pred)[k]));
                if rest.filter(pred)[k] == s.last() {
                    let m = choose|m: int| 0 <= m < rest.len() && rest[m] == s.last();
                    assert(s[m] == s[s.len() - 1]);
                }
            }
        }
    }
}

/// No list of a mapping names a capability twice: what a PASS needs, what
/// the host enforces, and what stays unsupported.
pub proof fn lemma_mapping_lists_distinct(tier: Option<Tier>, p: CapabilityProbe, net_off: bool)
    ensures
        mandatory_spec(tier, net_off, p.platform).no_duplicates(),
        enforced_spec(p, net_off).no_duplicates(),
        unsupported_spec(enforced_spec(p, net_off)).no_duplicates(),
{
    assert(all_caps().no_duplicates());
    lemma_filter_keeps_distinct(all_caps(), |c: SecurityCapability| !enforced_spec(p, net_off).contains(c));
    assert(mandatory_spec(tier, net_off, p.platform).no_duplicates());
    assert(enforced_spec(p, net_off).no_duplicates());
}

/// The exit code a session ends with when it fails closed.
pub const FAIL_CLOSED_EXIT_CODE: i32 = 125;

/// The status of a finished session's verdict.
#[derive(Debug, Clone, Copy, PartialEq, Eq, Structural)]
pub enum VerdictStatus {
    Pass,
    Fail,
    Inconclusive,
}

/// How strong the evidence behind a verdict is. A finished session's
/// verdict rests on host-side observation (the tree sweep, the evidence
/// channel, the ledger), which is strong evidence.
#[derive(Debug, Clone, Copy, PartialEq, Eq, Structural)]
pub enum EvidenceStrength {
    Strong,
}

/// Why a finished session got its verdict, by precedence: a disrupted
/// evidence channel first, then a process-tree extinction breach, then an
/// unverified audit ledger.
#[derive(Debug, Clone, Copy, PartialEq, Eq, Structural)]
pub enum FinishReason {
    EvidenceDropped,
    ExtinctionBreach,
    LedgerUnverified,
    Completed,
}

impl FinishReason {
    /// The reason's text (for a breach, the breach's own reason follows it
    /// after `": "`).
    pub open spec fn text_spec(&self) -> Seq<char> {
        match self {
            FinishReason::EvidenceDropped => "Evidence capture channel dropped events: audit ledger inconclusive (INV-37)"@,
            FinishReason::ExtinctionBreach => "Process tree extinction breach (INV-20)"@,
            FinishReason::LedgerUnverified => "Audit ledger hash chain verification failed (INV-34)"@,
            FinishReason::Completed => "Session completed within invariant parameters"@,
        }
    }

    /// The reason's text.
    pub fn text(&self) -> (t: String)
        ensures
            t@ == self.text_spec(),
    {
        match self {
            FinishReason::EvidenceDropped => "Evidence capture channel dropped events: audit ledger inconclusive (INV-37)".to_owned(),
            FinishReason::ExtinctionBreach => "Process tree extinction breach (INV-20)".to_owned(),
            FinishReason::LedgerUnverified => "Audit ledger hash chain verification failed (INV-34)".to_owned(),
            FinishReason::Completed => "Session completed within invariant parameters".to_owned(),
        }
    }
}

/// The verdict on a finished session.
#[derive(Debug, Clone, Copy, PartialEq, Eq, Structural)]
pub struct FinishVerdict {
    /// The session's exit code: the agent's, or the fail-closed code.
    pub exit_code: Option<i32>,
    /// The verdict's own exit code: the session's, zero where it has none.
    pub verdict_code: i32,
    pub status: VerdictStatus,
    pub strength: EvidenceStrength,
    pub reason: FinishReason,
    /// Whether the session failed closed (the state machine goes through
    /// the emergency cleanup instead of verification and attestation).
    pub fail_closed: bool,
}

/// The fail-closed verdict on a finished session, from the agent's exit
/// code (`None` when it has none), whether the process tree was proven
/// extinct, whether the evidence channel stayed intact, and whether the
/// audit ledger's hash chain was written and verified.
pub fn finish_verdict(exit_code: Option<i32>, extinction_ok: bool, evidence_intact: bool, ledger_verified: bool) -> (v: FinishVerdict)
    ensures
        v.exit_code == if !extinction_ok || !evidence_intact || !ledger_verified {
            Some(FAIL_CLOSED_EXIT_CODE)
        } else {
            exit_code
        },
        v.verdict_code == match v.exit_code {
            Some(c) => c,
            None => 0i32,
        },
        v.status == if !extinction_ok || !ledger_verified {
            VerdictStatus::Fail
        } else if !evidence_intact {
            VerdictStatus::Inconclusive
        } else if exit_code matches Some(c) && c != 0 {
            VerdictStatus::Fail
        } else {
            VerdictStatus::Pass
        },
        v.reason == if !evidence_intact {
            FinishReason::EvidenceDropped
        } else if !extinction_ok {
            FinishReason::ExtinctionBreach
        } else if !ledger_verified {
            FinishReason::LedgerUnverified
        } else {
            FinishReason::Completed
        },
        v.fail_closed == (!extinction_ok || !evidence_intact || !ledger_verified),
        v.strength == EvidenceStrength::Strong,
{
    let fail_closed = !extinction_ok || !evidence_intact || !ledger_verified;
    let final_code = if fail_closed {
        Some(FAIL_CLOSED_EXIT_CODE)
    } else {
        exit_code
    };
    let verdict_code = match final_code {
        Some(c) => c,
        None => 0,
    };
    let status = if !extinction_ok || !ledger_verified {
        VerdictStatus::Fail
    } else if !evidence_intact {
        VerdictStatus::Inconclusive
    } else if verdict_code != 0 {
        VerdictStatus::Fail
    } else {
        VerdictStatus::Pass
    };
    let reason = if !evidence_intact {
        FinishReason::EvidenceDropped
    } else if !extinction_ok {
        FinishReason::ExtinctionBreach
    } else if !ledger_verified {
        FinishReason::LedgerUnverified
    } else {
        FinishReason::Completed
    };
    FinishVerdict { exit_code: final_code, verdict_code, status, strength: EvidenceStrength::Strong, reason, fail_closed }
}

/// A session passes only when it did not fail closed and its agent exited
/// with zero: a fail-closed session always ends with the fail-closed code
/// and never passes.
pub proof fn lemma_fail_closed_never_passes(
    exit_code: Option<i32>,
    extinction_ok: bool,
    evidence_intact: bool,
    ledger_verified: bool,
    v: FinishVerdict,
)
    requires
        v.exit_code == if !extinction_ok || !evidence_intact || !ledger_verified {
            Some(FAIL_CLOSED_EXIT_CODE)
        } else {
            exit_code
        },
        v.status == if !extinction_ok || !ledger_verified {
            VerdictStatus::Fail
        } else if !evidence_intact {
            VerdictStatus::Inconclusive
        } else if exit_code matches Some(c) && c != 0 {
            VerdictStatus::Fail
        } else {
            VerdictStatus::Pass
        },
        v.fail_closed == (!extinction_ok || !evidence_intact || !ledger_verified),
    ensures
        v.fail_closed ==> v.exit_code == Some(FAIL_CLOSED_EXIT_CODE) && v.status != VerdictStatus::Pass,
        v.status == VerdictStatus::Pass <==> (!v.fail_closed && !(exit_code matches Some(c) && c != 0)),
{
}

/// Why a prepared production execution refuses to spawn the agent.
#[derive(Debug, Clone, Copy, PartialEq, Eq, Structural)]
pub enum PreflightError {
    /// The lifecycle is not in its prepared state.
    NotPrepared,
    /// The contract or a frozen input differs from what was prepared.
    FrozenInputDrift,
    /// The spawn mechanics' network mode differs from the frozen one.
    NetDrift,
    /// The prepared plan's network denial disagrees with the frozen mode.
    PlanNetDrift,
    /// The prepared plan lost the new process group.
    PlanLostProcessGroup,
}

impl PreflightError {
    /// What the operator is told.
    pub fn message(&self) -> (m: String)
        ensures
            m@ == match self {
                PreflightError::NotPrepared => "production lifecycle is not prepared (fail-closed, no agent execution)"@,
                PreflightError::FrozenInputDrift => "production contract/frozen input drift (fail-closed, no agent execution)"@,
                PreflightError::NetDrift => "production net drift (fail-closed, no agent execution)"@,
                PreflightError::PlanNetDrift => "production plan/net drift (fail-closed, no agent execution)"@,
                PreflightError::PlanLostProcessGroup => "production plan lost process-group containment (fail-closed)"@,
            },
    {
        match self {
            PreflightError::NotPrepared => "production lifecycle is not prepared (fail-closed, no agent execution)".to_owned(),
            PreflightError::FrozenInputDrift => "production contract/frozen input drift (fail-closed, no agent execution)".to_owned(),
            PreflightError::NetDrift => "production net drift (fail-closed, no agent execution)".to_owned(),
            PreflightError::PlanNetDrift => "production plan/net drift (fail-closed, no agent execution)".to_owned(),
            PreflightError::PlanLostProcessGroup => "production plan lost process-group containment (fail-closed)".to_owned(),
        }
    }
}

/// The checks before the single production spawn, in order: the lifecycle
/// is prepared; the re-frozen contract and inputs equal the prepared ones
/// (`frozen_inputs_match`); the spawn mechanics report the frozen network
/// mode's label; and, where a pre-exec plan exists (`plan` holds its
/// network denial and whether it starts a new process group), it denies
/// the network exactly when the mode is `Off` and starts a new process
/// group.
pub fn spawn_preflight(
    prepared: bool,
    frozen_inputs_match: bool,
    mechanics_net_label: &str,
    net: &NetMode,
    plan: Option<(bool, bool)>,
) -> (r: Result<(), PreflightError>)
    ensures
        r == if !prepared {
            Err(PreflightError::NotPrepared)
        } else if !frozen_inputs_match {
            Err(PreflightError::FrozenInputDrift)
        } else if mechanics_net_label@ != net.label_spec() {
            Err(PreflightError::NetDrift)
        } else {
            match plan {
                Some((net_deny, new_pgroup)) => if net_deny != (*net is Off) {
                    Err(PreflightError::PlanNetDrift)
                } else if !new_pgroup {
                    Err(PreflightError::PlanLostProcessGroup)
                } else {
                    Ok(())
                },
                None => Ok::<(), PreflightError>(()),
            }
        },
{
    if !prepared {
        return Err(PreflightError::NotPrepared);
    }
    if !frozen_inputs_match {
        return Err(PreflightError::FrozenInputDrift);
    }
    let label = net.label();
    let a = crate::text::chars_of(mechanics_net_label);
    let b = crate::text::chars_of(label.as_str());
    if !crate::text::chars_eq(a.as_slice(), b.as_slice()) {
        return Err(PreflightError::NetDrift);
    }
    match plan {
        Some((net_deny, new_pgroup)) => {
            let off = match net {
                NetMode::Off => true,
                _ => false,
            };
            if net_deny != off {
                Err(PreflightError::PlanNetDrift)
            } else if !new_pgroup {
                Err(PreflightError::PlanLostProcessGroup)
            } else {
                Ok(())
            }
        },
        None => Ok(()),
    }
}

} // verus!
