//! Resource ceilings applied immediately before the agent's `execve`: which
//! `setrlimit` calls a policy asks for. A missing value never widens the
//! inherited limit; an explicit one sets both the soft and the hard ceiling.
use vstd::prelude::*;
use crate::linux::visibility::{parse_i32, parse_i32_spec};
use crate::text::{
    append_chars, chars_eq, chars_of, chars_starts_with, split_chars, split_on, starts_with, string_of,
    to_lowercase, trim, trim_ws, unicode_lowercase,
};

verus! {

/// The policy's resource ceilings.
#[derive(Debug, Clone, Copy, PartialEq, Eq, Structural)]
pub struct ResourceLimits {
    pub cpu_seconds: Option<u64>,
    pub address_space_bytes: Option<u64>,
    pub processes: Option<u64>,
    pub open_files: Option<u64>,
    pub file_size_bytes: Option<u64>,
}

impl Default for ResourceLimits {
    fn default() -> (l: Self)
        ensures
            l.cpu_seconds is None && l.address_space_bytes is None && l.processes is None
                && l.open_files is None && l.file_size_bytes is None,
    {
        ResourceLimits {
            cpu_seconds: None,
            address_space_bytes: None,
            processes: None,
            open_files: None,
            file_size_bytes: None,
        }
    }
}

/// The `setrlimit` resources a policy can set.
#[derive(Debug, Clone, Copy, PartialEq, Eq, Structural)]
pub enum Resource {
    Cpu,
    AddressSpace,
    Processes,
    OpenFiles,
    FileSize,
    MsgQueue,
    MemLock,
}

/// `[(r, v)]` when `value` is `Some(v)`, else nothing.
pub open spec fn one(r: Resource, value: Option<u64>) -> Seq<(Resource, u64)> {
    match value {
        Some(v) => seq![(r, v)],
        None => Seq::empty(),
    }
}

/// The ceilings to set, in the order they are applied.
pub open spec fn rlimit_plan_spec(l: ResourceLimits) -> Seq<(Resource, u64)> {
    one(Resource::Cpu, l.cpu_seconds) + one(Resource::AddressSpace, l.address_space_bytes) + one(
        Resource::Processes,
        l.processes,
    ) + one(Resource::OpenFiles, l.open_files) + one(Resource::FileSize, l.file_size_bytes)
}

fn push_one(plan: &mut Vec<(Resource, u64)>, r: Resource, value: Option<u64>)
    ensures
        final(plan)@ == old(plan)@ + one(r, value),
{
    match value {
        Some(v) => {
            plan.push((r, v));
            assert(final(plan)@ =~= old(plan)@ + one(r, value));
        },
        None => {
            assert(old(plan)@ + one(r, value) =~= old(plan)@);
        },
    }
}

/// The `setrlimit` calls for `limits` (each sets soft and hard to the
/// value): CPU time, address space, processes, open files, file size.
pub fn rlimit_plan(limits: &ResourceLimits) -> (plan: Vec<(Resource, u64)>)
    ensures
        plan@ == rlimit_plan_spec(*limits),
{
    let mut plan: Vec<(Resource, u64)> = Vec::new();
    push_one(&mut plan, Resource::Cpu, limits.cpu_seconds);
    push_one(&mut plan, Resource::AddressSpace, limits.address_space_bytes);
    push_one(&mut plan, Resource::Processes, limits.processes);
    push_one(&mut plan, Resource::OpenFiles, limits.open_files);
    push_one(&mut plan, Resource::FileSize, limits.file_size_bytes);
    assert(plan@ =~= rlimit_plan_spec(*limits));
    plan
}

/// The IPC ceilings (POSIX message queues, then locked memory) to set.
pub fn ipc_rlimit_plan(max_msgqueue_bytes: Option<u64>, max_memlock_bytes: Option<u64>) -> (plan: Vec<(Resource, u64)>)
    ensures
        plan@ == one(Resource::MsgQueue, max_msgqueue_bytes) + one(Resource::MemLock, max_memlock_bytes),
{
    let mut plan: Vec<(Resource, u64)> = Vec::new();
    push_one(&mut plan, Resource::MsgQueue, max_msgqueue_bytes);
    push_one(&mut plan, Resource::MemLock, max_memlock_bytes);
    assert(plan@ =~= Seq::<(Resource, u64)>::empty() + one(Resource::MsgQueue, max_msgqueue_bytes)
        + one(Resource::MemLock, max_memlock_bytes));
    plan
}

/// Every configured ceiling is applied, exactly once, and nothing else.
pub proof fn lemma_plan_covers_configured(l: ResourceLimits, r: Resource, v: u64)
    ensures
        rlimit_plan_spec(l).contains((r, v)) <==> ((r == Resource::Cpu && l.cpu_seconds == Some(v))
            || (r == Resource::AddressSpace && l.address_space_bytes == Some(v)) || (r
            == Resource::Processes && l.processes == Some(v)) || (r == Resource::OpenFiles
            && l.open_files == Some(v)) || (r == Resource::FileSize && l.file_size_bytes == Some(v))),
{
    let p = rlimit_plan_spec(l);
    if p.contains((r, v)) {
        let i = choose|i: int| 0 <= i < p.len() && p[i] == (r, v);
        let a = one(Resource::Cpu, l.cpu_seconds);
        let b = one(Resource::AddressSpace, l.address_space_bytes);
        let c = one(Resource::Processes, l.processes);
        let d = one(Resource::OpenFiles, l.open_files);
        let e = one(Resource::FileSize, l.file_size_bytes);
        assert(p == a + b + c + d + e);
        if i < a.len() {
            assert(p[i] == a[i]);
        } else if i < a.len() + b.len() {
            assert(p[i] == b[i - a.len()]);
        } else if i < a.len() + b.len() + c.len() {
            assert(p[i] == c[i - a.len() - b.len()]);
        } else if i < a.len() + b.len() + c.len() + d.len() {
            assert(p[i] == d[i - a.len() - b.len() - c.len()]);
        } else {
            assert(p[i] == e[i - a.len() - b.len() - c.len() - d.len()]);
        }
    }
    if (r == Resource::Cpu && l.cpu_seconds == Some(v)) {
        assert(p[0] == (r, v));
    }
    if r == Resource::AddressSpace && l.address_space_bytes == Some(v) {
        let k = one(Resource::Cpu, l.cpu_seconds).len();
        assert(p[k as int] == (r, v));
    }
    if r == Resource::Processes && l.processes == Some(v) {
        let k = one(Resource::Cpu, l.cpu_seconds).len() + one(Resource::AddressSpace, l.address_space_bytes).len();
        assert(p[k as int] == (r, v));
    }
    if r == Resource::OpenFiles && l.open_files == Some(v) {
        let k = one(Resource::Cpu, l.cpu_seconds).len() + one(Resource::AddressSpace, l.address_space_bytes).len()
            + one(Resource::Processes, l.processes).len();
        assert(p[k as int] == (r, v));
    }
    if r == Resource::FileSize && l.file_size_bytes == Some(v) {
        let k = one(Resource::Cpu, l.cpu_seconds).len() + one(Resource::AddressSpace, l.address_space_bytes).len()
            + one(Resource::Processes, l.processes).len() + one(Resource::OpenFiles, l.open_files).len();
        assert(p[k as int] == (r, v));
    }
}

/// `ioprio_set` target kind: a process.
pub const IOPRIO_WHO_PROCESS: i32 = 1;
/// Bits below the I/O scheduling class.
pub const IOPRIO_CLASS_SHIFT: i32 = 13;
pub const IOPRIO_CLASS_NONE: i32 = 0;
pub const IOPRIO_CLASS_RT: i32 = 1;
pub const IOPRIO_CLASS_BE: i32 = 2;
pub const IOPRIO_CLASS_IDLE: i32 = 3;

/// The kernel's encoding of a class and a level.
pub open spec fn ioprio_value(class: i32, data: i32) -> i32 {
    (class << 13) | (data & 0x1fff)
}

/// The level after the colon of `class:level`: 4 when it does not read as
/// an `i32`, else clamped to 0..=7.
pub open spec fn level_spec(s: Seq<char>) -> i32 {
    let n = match parse_i32_spec(split_on(s, ':')[1]) {
        Some(v) => v,
        None => 4,
    };
    if n < 0 {
        0
    } else if n > 7 {
        7
    } else {
        n
    }
}

/// The class and level an I/O priority names (`idle`, `best-effort[:N]`,
/// `be[:N]`, `realtime[:N]`, `rt[:N]`, `none`), read trimmed and in lower
/// case; `None` for anything else.
pub open spec fn io_priority_spec(lowered: Seq<char>) -> Option<(i32, i32)> {
    let s = lowered;
    if s == "idle"@ {
        Some((IOPRIO_CLASS_IDLE, 0))
    } else if s == "best-effort"@ || s == "be"@ {
        Some((IOPRIO_CLASS_BE, 4))
    } else if s == "realtime"@ || s == "rt"@ {
        Some((IOPRIO_CLASS_RT, 4))
    } else if s == "none"@ {
        Some((IOPRIO_CLASS_NONE, 0))
    } else if starts_with(s, "best-effort:"@) || starts_with(s, "be:"@) {
        Some((IOPRIO_CLASS_BE, level_spec(s)))
    } else if starts_with(s, "realtime:"@) || starts_with(s, "rt:"@) {
        Some((IOPRIO_CLASS_RT, level_spec(s)))
    } else {
        None
    }
}

/// The spec as it is read: trimmed, then in Unicode lower case.
pub open spec fn io_priority_text(spec: Seq<char>) -> Seq<char> {
    unicode_lowercase(trim_ws(spec))
}

fn lit_eq(s: &[char], lit: &str) -> (r: bool)
    ensures
        r == (s@ == lit@),
{
    let l = chars_of(lit);
    chars_eq(s, l.as_slice())
}

fn lit_prefix(s: &[char], lit: &str) -> (r: bool)
    ensures
        r == starts_with(s@, lit@),
{
    let l = chars_of(lit);
    chars_starts_with(s, l.as_slice())
}

fn level_of(s: &[char]) -> (n: i32)
    requires
        split_on(s@, ':').len() > 1,
    ensures
        n == level_spec(s@),
{
    let parts = split_chars(s, ':');
    assert(parts@[1]@ == split_on(s@, ':')[1]);
    let n = match parse_i32(parts[1].as_slice()) {
        Some(v) => v,
        None => 4,
    };
    if n < 0 {
        0
    } else if n > 7 {
        7
    } else {
        n
    }
}

proof fn lemma_prefix_has_colon(s: Seq<char>, p: Seq<char>)
    requires
        starts_with(s, p),
        p.len() > 0,
        p.last() == ':',
    ensures
        split_on(s, ':').len() > 1,
{
    let k = p.len() - 1;
    assert(s[k] == ':') by {
        assert(s.take(p.len() as int)[k] == p[k]);
    }
    lemma_split_count(s, k);
}

proof fn lemma_split_count(s: Seq<char>, k: int)
    requires
        0 <= k < s.len(),
        s[k] == ':',
    ensures
        split_on(s, ':').len() > 1,
    decreases s.len(),
{
    if k == s.len() - 1 {
        crate::text::lemma_split_nonempty(s.drop_last(), ':');
    } else {
        assert(s.drop_last()[k] == ':');
        lemma_split_count(s.drop_last(), k);
    }
}

/// The `ioprio_set` value for a policy's I/O priority; the error names the
/// spec as read.
pub fn parse_io_priority(spec: &str) -> (r: Result<i32, String>)
    ensures
        match io_priority_spec(io_priority_text(spec@)) {
            Some((class, data)) => r == Ok::<i32, String>(ioprio_value(class, data)),
            None => r matches Err(m) && m@ == "invalid io_priority spec '"@ + io_priority_text(spec@) + "'"@,
        },
{
    let cs = chars_of(spec);
    let t = trim(cs.as_slice());
    let ts = string_of(t.as_slice());
    let low = to_lowercase(ts.as_str());
    let s = chars_of(low.as_str());
    let sv = s.as_slice();
    proof {
        reveal_strlit("best-effort:");
        reveal_strlit("be:");
        reveal_strlit("realtime:");
        reveal_strlit("rt:");
    }
    let (class, data): (i32, i32) = if lit_eq(sv, "idle") {
        (IOPRIO_CLASS_IDLE, 0)
    } else if lit_eq(sv, "best-effort") || lit_eq(sv, "be") {
        (IOPRIO_CLASS_BE, 4)
    } else if lit_eq(sv, "realtime") || lit_eq(sv, "rt") {
        (IOPRIO_CLASS_RT, 4)
    } else if lit_eq(sv, "none") {
        (IOPRIO_CLASS_NONE, 0)
    } else if lit_prefix(sv, "best-effort:") || lit_prefix(sv, "be:") {
        proof {
            if starts_with(s@, "best-effort:"@) {
                lemma_prefix_has_colon(s@, "best-effort:"@);
            } else {
                lemma_prefix_has_colon(s@, "be:"@);
            }
        }
        (IOPRIO_CLASS_BE, level_of(sv))
    } else if lit_prefix(sv, "realtime:") || lit_prefix(sv, "rt:") {
        proof {
            if starts_with(s@, "realtime:"@) {
                lemma_prefix_has_colon(s@, "realtime:"@);
            } else {
                lemma_prefix_has_colon(s@, "rt:"@);
            }
        }
        (IOPRIO_CLASS_RT, level_of(sv))
    } else {
        let mut m = chars_of("invalid io_priority spec '");
        append_chars(&mut m, sv);
        let q = chars_of("'");
        append_chars(&mut m, q.as_slice());
        return Err(string_of(m.as_slice()));
    };
    Ok((class << 13) | (data & 0x1fff))
}

} // verus!
