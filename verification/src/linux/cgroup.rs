//! cgroup v2 resource ceilings: reading the policy's memory and CPU limits,
//! merging the CPU override, the candidate hierarchy roots, and the
//! one-time cleanup of a session's cgroup.
use vstd::prelude::*;
use crate::text::{
    chars_eq, chars_of, opt_chars, decimal, decimal_chars, ends_with, is_digit, lower_chars, parse_u64,
    parse_unsigned, string_of, sub_chars, to_ascii_lowercase, to_uppercase, trim, trim_end_char,
    trim_end_matches, trim_ws, unicode_uppercase,
};

verus! {

/// A session's transient cgroup: its directory and whether its cleanup has
/// been claimed.
pub struct CgroupHandle {
    path: String,
    cleaned: bool,
}

impl CgroupHandle {
    /// The cgroup directory.
    pub closed spec fn path_view(&self) -> Seq<char> {
        self.path@
    }

    /// Whether the cleanup has been claimed.
    pub closed spec fn cleaned_view(&self) -> bool {
        self.cleaned
    }

    /// A handle for the cgroup created at `path`.
    pub fn new(path: String) -> (h: Self)
        ensures
            h.path_view() == path@,
            !h.cleaned_view(),
    {
        CgroupHandle { path, cleaned: false }
    }

    /// The cgroup directory.
    pub fn path(&self) -> (p: &str)
        ensures
            p@ == self.path_view(),
    {
        self.path.as_str()
    }

    /// Claims the cleanup: true for the first claim only, so the cgroup is
    /// killed and removed at most once however often teardown runs.
    pub fn claim_cleanup(&mut self) -> (first: bool)
        ensures
            first == !old(self).cleaned_view(),
            final(self).cleaned_view(),
            final(self).path_view() == old(self).path_view(),
    {
        let first = !self.cleaned;
        self.cleaned = true;
        first
    }
}

/// A character of the numeric part of a memory size.
pub open spec fn is_num_char(c: char) -> bool {
    is_digit(c) || c == '.'
}

/// Length of the leading run of digits and dots.
pub open spec fn num_run(s: Seq<char>) -> nat
    decreases s.len(),
{
    if s.len() > 0 && is_num_char(s[0]) {
        1 + num_run(s.drop_first())
    } else {
        0
    }
}

/// Number of dots in `d`.
pub open spec fn dot_count(d: Seq<char>) -> nat
    decreases d.len(),
{
    if d.len() == 0 {
        0
    } else {
        dot_count(d.drop_last()) + if d.last() == '.' {
            1nat
        } else {
            0nat
        }
    }
}

/// A run of digits and dots that `f64::from_str` accepts: at most one dot
/// and at least one digit.
pub open spec fn valid_decimal(d: Seq<char>) -> bool {
    dot_count(d) <= 1 && exists|i: int| 0 <= i < d.len() && is_digit(#[trigger] d[i])
}

/// The power of two a unit stands for: bytes, then KiB, MiB, GiB and TiB.
pub open spec fn unit_shift(u: Seq<char>) -> Option<u32> {
    if u == ""@ || u == "B"@ {
        Some(0)
    } else if u == "K"@ || u == "KB"@ || u == "KIB"@ {
        Some(10)
    } else if u == "M"@ || u == "MB"@ || u == "MIB"@ {
        Some(20)
    } else if u == "G"@ || u == "GB"@ || u == "GIB"@ {
        Some(30)
    } else if u == "T"@ || u == "TB"@ || u == "TIB"@ {
        Some(40)
    } else {
        None
    }
}

/// A memory ceiling as a policy writes it: no ceiling, or a decimal number
/// (digits and at most one dot) of units of `2^shift` bytes.
#[derive(Debug, Clone, PartialEq, Eq)]
pub enum MemoryLimit {
    Max,
    Scaled { number: String, shift: u32 },
}

/// A memory limit as plain values: whether it is `max`, the number, the shift.
pub open spec fn memory_limit_view(m: MemoryLimit) -> (bool, Seq<char>, u32) {
    match m {
        MemoryLimit::Max => (true, Seq::empty(), 0),
        MemoryLimit::Scaled { number, shift } => (false, number@, shift),
    }
}

/// The memory limit written as `input`: empty or `max` (any case) is no
/// ceiling; else a number followed by an optional unit (upper-cased, any
/// white space around it dropped), `None` for a bad number or unit.
pub open spec fn memory_limit_spec(input: Seq<char>) -> Option<(bool, Seq<char>, u32)> {
    let s = trim_ws(input);
    if s.len() == 0 || lower_chars(s) == "max"@ {
        Some((true, Seq::empty(), 0))
    } else {
        let k = num_run(s) as int;
        let num = s.take(k);
        let unit = if k < s.len() {
            unicode_uppercase(trim_ws(s.skip(k)))
        } else {
            Seq::empty()
        };
        match unit_shift(unit) {
            None => None,
            Some(sh) => if valid_decimal(num) {
                Some((false, num, sh))
            } else {
                None
            },
        }
    }
}

fn is_max_word(s: &[char]) -> (r: bool)
    ensures
        r == (lower_chars(s@) == "max"@),
{
    let low = to_ascii_lowercase(s);
    let max = chars_of("max");
    chars_eq(low.as_slice(), max.as_slice())
}

fn leading_num_run(s: &[char]) -> (k: usize)
    ensures
        k == num_run(s@),
        k <= s.len(),
{
    let mut i: usize = 0;
    assert(s@.skip(0) =~= s@);
    while i < s.len() && (('0' <= s[i] && s[i] <= '9') || s[i] == '.')
        invariant
            i <= s.len(),
            num_run(s@) == i + num_run(s@.skip(i as int)),
        decreases s.len() - i,
    {
        assert(s@.skip(i as int).drop_first() =~= s@.skip(i + 1));
        i += 1;
    }
    i
}

fn decimal_ok(d: &[char]) -> (r: bool)
    ensures
        r == valid_decimal(d@),
{
    let mut dots: usize = 0;
    let mut digit = false;
    let mut i: usize = 0;
    assert(d@.take(0) =~= Seq::<char>::empty());
    while i < d.len()
        invariant
            i <= d.len(),
            dots == dot_count(d@.take(i as int)),
            dots <= i,
            digit == exists|j: int| 0 <= j < i && is_digit(#[trigger] d@[j]),
        decreases d.len() - i,
    {
        assert(d@.take(i + 1).drop_last() =~= d@.take(i as int));
        assert(d@.take(i + 1).last() == d@[i as int]);
        if d[i] == '.' {
            dots = dots + 1;
        }
        if '0' <= d[i] && d[i] <= '9' {
            digit = true;
        }
        proof {
            if digit && !(exists|j: int| 0 <= j < i && is_digit(#[trigger] d@[j])) {
                assert(is_digit(d@[i as int]));
            }
        }
        i += 1;
    }
    assert(d@.take(d.len() as int) =~= d@);
    dots <= 1 && digit
}

fn literal_is(u: &[char], lit: &str) -> (r: bool)
    ensures
        r == (u@ == lit@),
{
    let l = chars_of(lit);
    chars_eq(u, l.as_slice())
}

fn shift_of_unit(u: &[char]) -> (r: Option<u32>)
    ensures
        r == unit_shift(u@),
{
    if literal_is(u, "") || literal_is(u, "B") {
        Some(0)
    } else if literal_is(u, "K") || literal_is(u, "KB") || literal_is(u, "KIB") {
        Some(10)
    } else if literal_is(u, "M") || literal_is(u, "MB") || literal_is(u, "MIB") {
        Some(20)
    } else if literal_is(u, "G") || literal_is(u, "GB") || literal_is(u, "GIB") {
        Some(30)
    } else if literal_is(u, "T") || literal_is(u, "TB") || literal_is(u, "TIB") {
        Some(40)
    } else {
        None
    }
}

/// Reads a human-readable memory limit (`"2g"`, `"512M"`, `"1024"`,
/// `"max"`). The byte count itself is the number times `2^shift`.
pub fn parse_memory_limit(input: &str) -> (r: Option<MemoryLimit>)
    ensures
        match r {
            Some(m) => memory_limit_spec(input@) == Some(memory_limit_view(m)),
            None => memory_limit_spec(input@) is None,
        },
{
    let cs = chars_of(input);
    let s = trim(cs.as_slice());
    if s.len() == 0 || is_max_word(s.as_slice()) {
        return Some(MemoryLimit::Max);
    }
    let k = leading_num_run(s.as_slice());
    let num = sub_chars(s.as_slice(), 0, k);
    assert(num@ =~= s@.take(k as int));
    let unit: Vec<char> = if k < s.len() {
        let rest = sub_chars(s.as_slice(), k, s.len());
        assert(rest@ =~= s@.skip(k as int));
        let t = trim(rest.as_slice());
        let ts = string_of(t.as_slice());
        let up = to_uppercase(ts.as_str());
        chars_of(up.as_str())
    } else {
        Vec::new()
    };
    match shift_of_unit(unit.as_slice()) {
        None => None,
        Some(sh) => {
            if decimal_ok(num.as_slice()) {
                Some(MemoryLimit::Scaled { number: string_of(num.as_slice()), shift: sh })
            } else {
                None
            }
        },
    }
}

/// A CPU ceiling as a policy writes it: the `cpu.max` value itself, or a
/// percentage of one CPU whose text is still to be read as a float.
#[derive(Debug, Clone, PartialEq, Eq)]
pub enum CpuLimit {
    Value(String),
    Percent(String),
}

/// A CPU limit as plain values: whether it is a percentage, and its text.
pub open spec fn cpu_limit_view(c: CpuLimit) -> (bool, Seq<char>) {
    match c {
        CpuLimit::Value(v) => (false, v@),
        CpuLimit::Percent(p) => (true, p@),
    }
}

/// The CPU limit written as `input`: empty or `max` is `max 100000`; a
/// trailing `%` makes a percentage; text with a space is a raw
/// `quota period` pair; a plain number is a quota for a 100000 µs period.
pub open spec fn cpu_limit_spec(input: Seq<char>) -> Option<(bool, Seq<char>)> {
    let s = trim_ws(input);
    if s.len() == 0 || lower_chars(s) == "max"@ {
        Some((false, "max 100000"@))
    } else if ends_with(s, seq!['%']) {
        Some((true, trim_ws(trim_end_char(s, '%'))))
    } else if s.contains(' ') {
        Some((false, s))
    } else {
        match parse_unsigned(s, u64::MAX as int) {
            Some(q) => Some((false, decimal(q as nat) + " 100000"@)),
            None => None,
        }
    }
}

/// Reads a CPU limit (`"50%"`, `"200%"`, `"50000 100000"`, `"max"`).
pub fn parse_cpu_limit(input: &str) -> (r: Option<CpuLimit>)
    ensures
        match r {
            Some(c) => cpu_limit_spec(input@) == Some(cpu_limit_view(c)),
            None => cpu_limit_spec(input@) is None,
        },
{
    let cs = chars_of(input);
    let s = trim(cs.as_slice());
    if s.len() == 0 || is_max_word(s.as_slice()) {
        return Some(CpuLimit::Value("max 100000".to_owned()));
    }
    if s[s.len() - 1] == '%' {
        assert(ends_with(s@, seq!['%'])) by {
            assert(s@.skip(s@.len() - 1) =~= seq!['%']);
        }
        let pct = trim_end_matches(s.as_slice(), '%');
        let t = trim(pct.as_slice());
        return Some(CpuLimit::Percent(string_of(t.as_slice())));
    }
    assert(!ends_with(s@, seq!['%'])) by {
        if ends_with(s@, seq!['%']) {
            assert(s@.skip(s@.len() - 1)[0] == s@[s@.len() - 1]);
        }
    }
    if crate::text::chars_contain(s.as_slice(), ' ') {
        return Some(CpuLimit::Value(string_of(s.as_slice())));
    }
    match parse_u64(s.as_slice()) {
        Some(q) => {
            proof {
                let d = crate::text::unsigned_digits(s@);
                if crate::text::all_digits(d) {
                    crate::text::lemma_digits_value_nonneg(d);
                }
            }
            let mut out = decimal_chars(q);
            let tail = chars_of(" 100000");
            crate::text::append_chars(&mut out, tail.as_slice());
            Some(CpuLimit::Value(string_of(out.as_slice())))
        },
        None => None,
    }
}

/// A policy's cgroup ceilings, each as written.
#[derive(Debug, Clone, PartialEq, Eq)]
pub struct CgroupConfig {
    pub memory_max: Option<String>,
    pub swap_max: Option<String>,
    pub pids_max: Option<String>,
    pub cpu_max: Option<String>,
}

impl Default for CgroupConfig {
    fn default() -> (c: Self)
        ensures
            c.memory_max is None,
            c.swap_max is None,
            c.pids_max is None,
            c.cpu_max is None,
    {
        CgroupConfig { memory_max: None, swap_max: None, pids_max: None, cpu_max: None }
    }
}

fn clone_opt(o: &Option<String>) -> (r: Option<String>)
    ensures
        r == *o,
{
    match o {
        Some(s) => Some(s.clone()),
        None => None,
    }
}

/// The ceilings a session gets: none without a configuration or override;
/// else the configuration (or no ceiling) with the CPU ceiling replaced by
/// the override where one is given.
pub fn effective_cgroup(config: Option<&CgroupConfig>, cpu_override: Option<&str>) -> (r: Option<
    CgroupConfig,
>)
    ensures
        (config is None && cpu_override is None) ==> r is None,
        !(config is None && cpu_override is None) ==> (r matches Some(c) && c.memory_max == (
        match config {
            Some(k) => k.memory_max,
            None => None,
        }) && c.swap_max == (match config {
            Some(k) => k.swap_max,
            None => None,
        }) && c.pids_max == (match config {
            Some(k) => k.pids_max,
            None => None,
        }) && opt_chars(c.cpu_max) == (match cpu_override {
            Some(cpu) => Some(cpu@),
            None => match config {
                Some(k) => opt_chars(k.cpu_max),
                None => None,
            },
        })),
{
    if config.is_none() && cpu_override.is_none() {
        return None;
    }
    let mut merged = match config {
        Some(c) => CgroupConfig {
            memory_max: clone_opt(&c.memory_max),
            swap_max: clone_opt(&c.swap_max),
            pids_max: clone_opt(&c.pids_max),
            cpu_max: clone_opt(&c.cpu_max),
        },
        None => CgroupConfig::default(),
    };
    if let Some(cpu) = cpu_override {
        merged.cpu_max = Some(cpu.to_owned());
    }
    Some(merged)
}


/// Mount point of the cgroup v2 hierarchy.
pub const CGROUP2_MOUNT: &'static str = "/sys/fs/cgroup";

/// The hierarchy roots to try, in order, for user `uid`: the user's systemd
/// service slice, the user slice, the hierarchy root itself, and `cgroup`
/// under the runtime directory where one is set.
pub open spec fn root_candidates_spec(uid: u32, runtime_dir: Option<Seq<char>>) -> Seq<Seq<char>> {
    let u = decimal(uid as nat);
    let slice = "/sys/fs/cgroup/user.slice/user-"@ + u + ".slice"@;
    let first = seq![slice + "/user@"@ + u + ".service"@, slice, "/sys/fs/cgroup"@];
    match runtime_dir {
        Some(d) => first.push(crate::paths::join_spec(d, "cgroup"@)),
        None => first,
    }
}

/// The hierarchy roots to try, in order; the first writable one is used.
pub fn cgroup_root_candidates(uid: u32, runtime_dir: Option<&str>) -> (r: Vec<String>)
    ensures
        r@.map_values(|s: String| s@) == root_candidates_spec(
            uid,
            match runtime_dir {
                Some(d) => Some(d@),
                None => None,
            },
        ),
{
    let u = decimal_chars(uid as u64);
    let mut slice = chars_of("/sys/fs/cgroup/user.slice/user-");
    crate::text::append_chars(&mut slice, u.as_slice());
    let dot_slice = chars_of(".slice");
    crate::text::append_chars(&mut slice, dot_slice.as_slice());
    let mut service = crate::text::copy_chars(slice.as_slice());
    let at = chars_of("/user@");
    crate::text::append_chars(&mut service, at.as_slice());
    crate::text::append_chars(&mut service, u.as_slice());
    let svc = chars_of(".service");
    crate::text::append_chars(&mut service, svc.as_slice());
    let mut out: Vec<String> = Vec::new();
    out.push(string_of(service.as_slice()));
    out.push(string_of(slice.as_slice()));
    out.push(CGROUP2_MOUNT.to_owned());
    if let Some(d) = runtime_dir {
        out.push(crate::paths::join_relative(d, "cgroup"));
    }
    let ghost rd = match runtime_dir {
        Some(d) => Some(d@),
        None => None,
    };
    assert(out@.map_values(|s: String| s@) =~= root_candidates_spec(uid, rd));
    out
}

/// The ceilings to write into a new cgroup: each configured memory and CPU
/// limit as read (one that cannot be read is not written), and the pid
/// limit as configured.
pub struct CgroupPlan {
    pub memory_max: Option<MemoryLimit>,
    pub swap_max: Option<MemoryLimit>,
    pub pids_max: Option<String>,
    pub cpu_max: Option<CpuLimit>,
}

/// What a configured memory limit becomes in the plan.
pub open spec fn planned_memory(c: Option<String>, m: Option<MemoryLimit>) -> bool {
    match c {
        None => m is None,
        Some(text) => match memory_limit_spec(text@) {
            None => m is None,
            Some(v) => m matches Some(x) && memory_limit_view(x) == v,
        },
    }
}

fn plan_memory(c: &Option<String>) -> (m: Option<MemoryLimit>)
    ensures
        planned_memory(*c, m),
{
    match c {
        None => None,
        Some(text) => parse_memory_limit(text.as_str()),
    }
}

/// The plan of writes for the ceilings of `config`.
pub fn cgroup_plan(config: &CgroupConfig) -> (p: CgroupPlan)
    ensures
        planned_memory(config.memory_max, p.memory_max),
        planned_memory(config.swap_max, p.swap_max),
        p.pids_max == config.pids_max,
        match config.cpu_max {
            None => p.cpu_max is None,
            Some(text) => match cpu_limit_spec(text@) {
                None => p.cpu_max is None,
                Some(v) => (p.cpu_max matches Some(x) && cpu_limit_view(x) == v),
            },
        },
{
    let cpu = match &config.cpu_max {
        None => None,
        Some(text) => parse_cpu_limit(text.as_str()),
    };
    CgroupPlan {
        memory_max: plan_memory(&config.memory_max),
        swap_max: plan_memory(&config.swap_max),
        pids_max: clone_opt(&config.pids_max),
        cpu_max: cpu,
    }
}

} // verus!
