//! Mount-namespace planning for the full tier: which paths are hidden and
//! how, the bounded `/dev/shm` and `/tmp` mounts, and the fallback rule for
//! a restricted `/proc`.
use vstd::prelude::*;
use crate::paths::{join_relative, join_spec};
use crate::text::{chars_eq, chars_of};

verus! {

pub const MS_REC: u64 = 0x4000;
pub const MS_PRIVATE: u64 = 0x04_0000;
pub const MS_BIND: u64 = 0x1000;
pub const MS_RDONLY: u64 = 0x1;
pub const MS_REMOUNT: u64 = 0x20;
pub const MS_NOSUID: u64 = 0x2;
pub const MS_NODEV: u64 = 0x4;
pub const MS_NOEXEC: u64 = 0x8;

/// Size of the private `/dev/shm`.
pub const DEV_SHM_SIZE_BYTES: u64 = 67108864;
pub const DEV_SHM_MOUNT_OPTIONS: &'static str = "size=67108864,mode=1777";
/// Size of the private `/tmp`.
pub const TMP_SIZE_BYTES: u64 = 67108864;
pub const TMP_MOUNT_OPTIONS: &'static str = "size=67108864,mode=1777";
pub const PROC_HIDE_PID_OPTIONS: &'static str = "hidepid=2";

/// Linux `EINVAL`.
pub const EINVAL: i32 = 22;
/// Linux `ENOPROTOOPT`.
pub const ENOPROTOOPT: i32 = 92;
/// Linux `EOPNOTSUPP`.
pub const EOPNOTSUPP: i32 = 95;

/// How `/proc` ended up mounted.
#[derive(Debug, Clone, Copy, PartialEq, Eq, Structural)]
pub enum ProcVisibility {
    /// Mounted with `hidepid=2` in the private pid namespace.
    HidePid,
    /// Mounted without `hidepid`, which the kernel does not support; the
    /// reduced visibility must be reported.
    Fallback,
}

/// Whether a failed `hidepid` mount says the option is unsupported (the
/// only case in which a mount without it may be tried).
pub open spec fn hidepid_unsupported_spec(errno: Option<i32>) -> bool {
    errno matches Some(e) && (e == EINVAL || e == ENOPROTOOPT || e == EOPNOTSUPP)
}

/// Whether a failed `hidepid` mount says the option is unsupported.
pub fn hidepid_unsupported(errno: Option<i32>) -> (r: bool)
    ensures
        r == hidepid_unsupported_spec(errno),
{
    match errno {
        Some(e) => e == EINVAL || e == ENOPROTOOPT || e == EOPNOTSUPP,
        None => false,
    }
}

/// The next step of mounting a restricted `/proc`.
#[derive(Debug, Clone, PartialEq, Eq)]
pub enum ProcStep {
    /// Mounted; this is the visibility.
    Done(ProcVisibility),
    /// Mount again without `hidepid`.
    RetryWithoutHidepid,
    /// Give up with this error (fail closed).
    Fail(String),
}

/// What follows the `hidepid=2` mount attempt (its error message and
/// errno where it failed): done, a retry without the option where the
/// kernel does not support it, or failure.
pub fn after_hidepid_mount(r: Result<(), (String, Option<i32>)>) -> (s: ProcStep)
    ensures
        match r {
            Ok(()) => s == ProcStep::Done(ProcVisibility::HidePid),
            Err((m, e)) => if hidepid_unsupported_spec(e) {
                s == ProcStep::RetryWithoutHidepid
            } else {
                s == ProcStep::Fail(m)
            },
        },
{
    match r {
        Ok(()) => ProcStep::Done(ProcVisibility::HidePid),
        Err((m, e)) => {
            if hidepid_unsupported(e) {
                ProcStep::RetryWithoutHidepid
            } else {
                ProcStep::Fail(m)
            }
        },
    }
}

/// The outcome of the mount without `hidepid` after the first attempt
/// failed with `first`: the fallback visibility, or an error naming both
/// failures.
pub fn after_plain_mount(first: &str, r: Result<(), String>) -> (v: Result<ProcVisibility, String>)
    ensures
        match r {
            Ok(()) => v == Ok::<ProcVisibility, String>(ProcVisibility::Fallback),
            Err(second) => v matches Err(m) && m@ == "proc hidepid unsupported and fallback mount failed: "@
                + first@ + "; "@ + second@,
        },
{
    match r {
        Ok(()) => Ok(ProcVisibility::Fallback),
        Err(second) => {
            let mut m = chars_of("proc hidepid unsupported and fallback mount failed: ");
            let a = chars_of(first);
            crate::text::append_chars(&mut m, a.as_slice());
            let sep = chars_of("; ");
            crate::text::append_chars(&mut m, sep.as_slice());
            let b = chars_of(second.as_str());
            crate::text::append_chars(&mut m, b.as_slice());
            Err(crate::text::string_of(m.as_slice()))
        },
    }
}

/// How a path is hidden.
#[derive(Debug, Clone, Copy, PartialEq, Eq, Structural)]
pub enum MaskKind {
    /// An empty tmpfs with mode 000 over a directory.
    EmptyTmpfs,
    /// `/dev/null` bound over a file.
    DevNull,
}

/// How a resolved deny path is masked: not at all where it does not exist,
/// with an empty tmpfs where it is a directory, with `/dev/null` otherwise.
pub fn mask_kind(exists: bool, is_dir: bool) -> (k: Option<MaskKind>)
    ensures
        k == (if !exists {
            None::<MaskKind>
        } else if is_dir {
            Some(MaskKind::EmptyTmpfs)
        } else {
            Some(MaskKind::DevNull)
        }),
{
    if !exists {
        None
    } else if is_dir {
        Some(MaskKind::EmptyTmpfs)
    } else {
        Some(MaskKind::DevNull)
    }
}

/// Kernel views under `/proc` hidden in the sandbox, with how.
pub open spec fn sensitive_proc_spec() -> Seq<(Seq<char>, MaskKind)> {
    seq![
        ("/proc/kcore"@, MaskKind::DevNull),
        ("/proc/kallsyms"@, MaskKind::DevNull),
        ("/proc/sysrq-trigger"@, MaskKind::DevNull),
        ("/proc/sched_debug"@, MaskKind::DevNull),
        ("/proc/slabinfo"@, MaskKind::DevNull),
        ("/proc/acpi"@, MaskKind::EmptyTmpfs),
        ("/proc/asound"@, MaskKind::EmptyTmpfs),
    ]
}

/// The `/proc` paths to hide (each where it exists; the two directories
/// only where they are directories).
pub fn sensitive_proc_paths() -> (v: Vec<(String, MaskKind)>)
    ensures
        v@.map_values(|e: (String, MaskKind)| (e.0@, e.1)) == sensitive_proc_spec(),
{
    let v = vec![
        ("/proc/kcore".to_owned(), MaskKind::DevNull),
        ("/proc/kallsyms".to_owned(), MaskKind::DevNull),
        ("/proc/sysrq-trigger".to_owned(), MaskKind::DevNull),
        ("/proc/sched_debug".to_owned(), MaskKind::DevNull),
        ("/proc/slabinfo".to_owned(), MaskKind::DevNull),
        ("/proc/acpi".to_owned(), MaskKind::EmptyTmpfs),
        ("/proc/asound".to_owned(), MaskKind::EmptyTmpfs),
    ];
    assert(v@.map_values(|e: (String, MaskKind)| (e.0@, e.1)) =~= sensitive_proc_spec());
    v
}

/// The state trees of other agents under `home`, given as paths relative to
/// the home directory (`state_subpaths`), each joined onto `home`, in order.
/// These are the trees that are masked, each where it exists.
pub fn agent_state_paths(home: &str, state_subpaths: &[&str]) -> (v: Vec<String>)
    ensures
        v@.map_values(|s: String| s@) == state_subpaths@.map_values(|p: &str| join_spec(home@, p@)),
{
    let ghost want = state_subpaths@.map_values(|p: &str| join_spec(home@, p@));
    let mut v: Vec<String> = Vec::new();
    let mut i: usize = 0;
    while i < state_subpaths.len()
        invariant
            i <= state_subpaths.len(),
            want == state_subpaths@.map_values(|p: &str| join_spec(home@, p@)),
            v@.len() == i,
            forall|k: int| 0 <= k < i ==> (#[trigger] v@[k])@ == want[k],
        decreases state_subpaths.len() - i,
    {
        v.push(join_relative(home, state_subpaths[i]));
        i += 1;
    }
    assert(v@.map_values(|s: String| s@) =~= want);
    v
}

/// Among the report directories' entry names, those of other agents: every
/// name but the current agent's.
pub fn sibling_report_dirs(names: &[String], current_agent: &str) -> (v: Vec<String>)
    ensures
        v@.map_values(|s: String| s@) == names@.map_values(|s: String| s@).filter(|n: Seq<char>| n != current_agent@),
{
    let ghost all = names@.map_values(|s: String| s@);
    let cur = chars_of(current_agent);
    let mut v: Vec<String> = Vec::new();
    let mut i: usize = 0;
    assert(all.take(0).filter(|n: Seq<char>| n != current_agent@) =~= Seq::<Seq<char>>::empty());
    while i < names.len()
        invariant
            i <= names.len(),
            all == names@.map_values(|s: String| s@),
            cur@ == current_agent@,
            v@.map_values(|s: String| s@) == all.take(i as int).filter(|n: Seq<char>| n != current_agent@),
        decreases names.len() - i,
    {
        let ghost before = v@.map_values(|s: String| s@);
        assert(all.take(i + 1).drop_last() =~= all.take(i as int));
        assert(all.take(i + 1).last() == names@[i as int]@);
        let n = chars_of(names[i].as_str());
        if !chars_eq(n.as_slice(), cur.as_slice()) {
            v.push(names[i].clone());
            assert(v@.map_values(|s: String| s@) =~= before.push(names@[i as int]@));
        }
        proof {
            all.take(i as int).lemma_filter_push(all[i as int], |n: Seq<char>| n != current_agent@);
            assert(all.take(i as int).push(all[i as int]) =~= all.take(i + 1));
        }
        i += 1;
    }
    assert(all.take(names.len() as int) =~= all);
    v
}

} // verus!
