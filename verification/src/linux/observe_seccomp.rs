//! The optional blocked-attempt observability tap: a seccomp user-notify
//! filter that only ever hands selected system calls to a listener (which
//! lets them continue), and the per-call facts the listener needs.
use vstd::prelude::*;
use crate::bpf::{
    eval_from, insn, jump, jumps_in_bounds, seccomp_verdict, stmt, SockFilter, BPF_JEQ_K,
    BPF_LD_W_ABS, BPF_RET_K, DATA_ARCH, DATA_NR, SECCOMP_RET_ALLOW, SECCOMP_RET_KILL_PROCESS,
    SECCOMP_RET_USER_NOTIF,
};

verus! {

/// Longest list of observed calls whose branch offsets fit in one byte.
pub const MAX_OBSERVED: usize = 250;

/// The system call numbers of the target ABI that the tap cares about.
/// The legacy path calls (`open`, `unlink`, `rename`, `chmod`, `fork`) do not
/// exist on every ABI (aarch64 has none of them).
#[derive(Clone, Copy, Debug)]
pub struct SyscallTable {
    pub open: Option<i32>,
    pub execve: i32,
    pub openat: i32,
    pub openat2: i32,
    pub execveat: i32,
    pub connect: i32,
    pub bind: i32,
    pub unlink: Option<i32>,
    pub unlinkat: i32,
    pub rename: Option<i32>,
    pub renameat: i32,
    pub renameat2: i32,
    pub chmod: Option<i32>,
    pub fchmodat: i32,
    pub fork: Option<i32>,
    pub clone: i32,
    pub clone3: i32,
}

/// `Some(x)` as a one-element sequence, `None` as the empty one.
pub open spec fn opt_seq(o: Option<i32>) -> Seq<i32> {
    match o {
        Some(x) => seq![x],
        None => Seq::empty(),
    }
}

/// Whether `nr` is the number `o` names.
pub open spec fn opt_is(o: Option<i32>, nr: i32) -> bool {
    o == Some(nr)
}

/// The observed calls, in filter order.
pub open spec fn observed_spec(t: SyscallTable) -> Seq<i32> {
    opt_seq(t.open) + seq![t.openat, t.openat2, t.execve, t.execveat, t.connect, t.bind]
        + opt_seq(t.unlink) + seq![t.unlinkat] + opt_seq(t.rename) + seq![t.renameat, t.renameat2]
        + opt_seq(t.chmod) + seq![t.fchmodat] + opt_seq(t.fork) + seq![t.clone, t.clone3]
}

/// Which argument of call `nr` holds the path (or socket address) it names.
pub open spec fn path_arg_index_spec(t: SyscallTable, nr: i32) -> Option<usize> {
    if opt_is(t.open, nr) || nr == t.execve {
        Some(0)
    } else if nr == t.openat || nr == t.openat2 || nr == t.execveat {
        Some(1)
    } else if nr == t.connect || nr == t.bind {
        Some(1)
    } else if opt_is(t.unlink, nr) || opt_is(t.rename, nr) || opt_is(t.chmod, nr) {
        Some(0)
    } else if nr == t.unlinkat || nr == t.renameat || nr == t.renameat2 || nr == t.fchmodat {
        Some(1)
    } else {
        None
    }
}

fn push_opt(v: &mut Vec<i32>, o: Option<i32>)
    ensures
        final(v)@ == old(v)@ + opt_seq(o),
{
    match o {
        Some(x) => {
            v.push(x);
            assert(old(v)@.push(x) =~= old(v)@ + seq![x]);
        },
        None => {
            assert(old(v)@ + Seq::<i32>::empty() =~= old(v)@);
        },
    }
}

impl SyscallTable {
    /// The calls the tap observes, in the order the filter tests them.
    pub fn observed_syscalls(&self) -> (v: Vec<i32>)
        ensures
            v@ == observed_spec(*self),
    {
        let mut v: Vec<i32> = Vec::new();
        push_opt(&mut v, self.open);
        v.push(self.openat);
        v.push(self.openat2);
        v.push(self.execve);
        v.push(self.execveat);
        v.push(self.connect);
        v.push(self.bind);
        push_opt(&mut v, self.unlink);
        v.push(self.unlinkat);
        push_opt(&mut v, self.rename);
        v.push(self.renameat);
        v.push(self.renameat2);
        push_opt(&mut v, self.chmod);
        v.push(self.fchmodat);
        push_opt(&mut v, self.fork);
        v.push(self.clone);
        v.push(self.clone3);
        assert(v@ =~= observed_spec(*self));
        v
    }

    /// Path argument position per system call number.
    pub fn path_arg_index(&self, nr: i32) -> (r: Option<usize>)
        ensures
            r == path_arg_index_spec(*self, nr),
    {
        if self.open == Some(nr) || nr == self.execve {
            Some(0)
        } else if nr == self.openat || nr == self.openat2 || nr == self.execveat {
            Some(1)
        } else if nr == self.connect || nr == self.bind {
            Some(1)
        } else if self.unlink == Some(nr) || self.rename == Some(nr) || self.chmod == Some(nr) {
            Some(0)
        } else if nr == self.unlinkat || nr == self.renameat || nr == self.renameat2 || nr
            == self.fchmodat {
            Some(1)
        } else {
            None
        }
    }

    /// Whether an exact `/dev/null` substitution may answer call `nr`: only
    /// the open family returns a file descriptor to substitute.
    pub fn addfd_allowed_syscall(&self, nr: i32) -> (r: bool)
        ensures
            r == (opt_is(self.open, nr) || nr == self.openat || nr == self.openat2),
    {
        self.open == Some(nr) || nr == self.openat || nr == self.openat2
    }
}

/// Whether `nr` is one of the observed calls.
pub open spec fn is_observed(observed: Seq<i32>, nr: u32) -> bool {
    exists|i: int| 0 <= i < observed.len() && observed[i] as u32 == nr
}

/// What the tap decides for one system call.
pub open spec fn tap_decision(native_arch: u32, observed: Seq<i32>, nr: u32, arch: u32) -> u32 {
    if arch != native_arch {
        SECCOMP_RET_KILL_PROCESS
    } else if is_observed(observed, nr) {
        SECCOMP_RET_USER_NOTIF
    } else {
        SECCOMP_RET_ALLOW
    }
}

/// The tap program.
pub open spec fn tap_program(native_arch: u32, observed: Seq<i32>) -> Seq<SockFilter> {
    seq![
        insn(BPF_LD_W_ABS, 0, 0, DATA_ARCH),
        insn(BPF_JEQ_K, 1, 0, native_arch),
        insn(BPF_RET_K, 0, 0, SECCOMP_RET_KILL_PROCESS),
        insn(BPF_LD_W_ABS, 0, 0, DATA_NR),
    ] + tap_branches(observed) + seq![
        insn(BPF_RET_K, 0, 0, SECCOMP_RET_ALLOW),
        insn(BPF_RET_K, 0, 0, SECCOMP_RET_USER_NOTIF),
    ]
}

/// One branch per observed call, each to the shared notify return.
pub open spec fn tap_branches(observed: Seq<i32>) -> Seq<SockFilter> {
    Seq::new(
        observed.len(),
        |i: int| insn(BPF_JEQ_K, (observed.len() - i) as u8, 0, observed[i] as u32),
    )
}

proof fn lemma_tap_chain(native_arch: u32, observed: Seq<i32>, j: int, nr: u32, arch: u32)
    requires
        0 <= j <= observed.len(),
        observed.len() <= MAX_OBSERVED,
    ensures
        eval_from(tap_program(native_arch, observed), 4 + j, nr, nr, arch, 0) == if exists|k: int|
            j <= k < observed.len() && observed[k] as u32 == nr {
            SECCOMP_RET_USER_NOTIF
        } else {
            SECCOMP_RET_ALLOW
        },
    decreases observed.len() - j,
{
    let prog = tap_program(native_arch, observed);
    let n = observed.len() as int;
    assert(prog.len() == n + 6);
    assert(prog[4 + n] == insn(BPF_RET_K, 0, 0, SECCOMP_RET_ALLOW));
    assert(prog[5 + n] == insn(BPF_RET_K, 0, 0, SECCOMP_RET_USER_NOTIF));
    if j < n {
        lemma_tap_chain(native_arch, observed, j + 1, nr, arch);
        assert(prog[4 + j] == tap_branches(observed)[j]);
        assert(((n - j) as u8) as int == n - j);
        assert(eval_from(prog, 5 + n, nr, nr, arch, 0) == SECCOMP_RET_USER_NOTIF);
        if observed[j] as u32 != nr {
            if exists|k: int| j <= k < n && observed[k] as u32 == nr {
                let k = choose|k: int| j <= k < n && observed[k] as u32 == nr;
                assert(j + 1 <= k);
            }
        }
    }
}

/// The tap's verdict for every system call is `tap_decision`.
pub proof fn lemma_tap_semantics(native_arch: u32, observed: Seq<i32>, nr: u32, arch: u32, arg0: u32)
    requires
        observed.len() <= MAX_OBSERVED,
    ensures
        seccomp_verdict(tap_program(native_arch, observed), nr, arch, arg0) == tap_decision(
            native_arch,
            observed,
            nr,
            arch,
        ),
{
    let prog = tap_program(native_arch, observed);
    let n = observed.len() as int;
    lemma_tap_chain(native_arch, observed, 0, nr, arch);
    // The program never loads `arg0`, so its verdict does not depend on it.
    lemma_tap_ignores_arg0(prog, 4, nr, nr, arch, arg0);
    assert(eval_from(prog, 3, arch, nr, arch, 0) == eval_from(prog, 4, nr, nr, arch, 0));
    assert(eval_from(prog, 2, arch, nr, arch, 0) == SECCOMP_RET_KILL_PROCESS);
    assert(eval_from(prog, 1, arch, nr, arch, 0) == if arch == native_arch {
        eval_from(prog, 3, arch, nr, arch, 0)
    } else {
        eval_from(prog, 2, arch, nr, arch, 0)
    });
    assert(eval_from(prog, 0, 0, nr, arch, 0) == eval_from(prog, 1, arch, nr, arch, 0));
    lemma_tap_ignores_arg0(prog, 0, 0, nr, arch, arg0);
}

/// The tap program never reads `arg0`.
proof fn lemma_tap_ignores_arg0(prog: Seq<SockFilter>, pc: int, acc: u32, nr: u32, arch: u32, arg0: u32)
    requires
        forall|i: int| 0 <= i < prog.len() ==> prog[i].code == BPF_LD_W_ABS ==> prog[i].k == DATA_ARCH
            || prog[i].k == DATA_NR,
    ensures
        eval_from(prog, pc, acc, nr, arch, arg0) == eval_from(prog, pc, acc, nr, arch, 0),
    decreases prog.len() - pc,
{
    if 0 <= pc < prog.len() {
        let ins = prog[pc];
        if ins.code == BPF_LD_W_ABS {
            lemma_tap_ignores_arg0(prog, pc + 1, crate::bpf::load_word(ins.k, nr, arch, 0), nr, arch, arg0);
        } else if ins.code == BPF_JEQ_K || ins.code == crate::bpf::BPF_JSET_K {
            let next = if crate::bpf::branch_taken(ins, acc) {
                pc + 1 + ins.jt
            } else {
                pc + 1 + ins.jf
            };
            if next < prog.len() {
                lemma_tap_ignores_arg0(prog, next, acc, nr, arch, arg0);
            }
        }
    }
}

/// Builds the observation filter: foreign architectures are killed, each
/// observed call is handed to the listener (`USER_NOTIF`), everything else
/// is allowed. The program never enforces anything beyond the ABI check.
pub fn build_tap_program(native_arch: u32, observed: &[i32]) -> (program: Vec<SockFilter>)
    requires
        observed.len() <= MAX_OBSERVED,
    ensures
        program@ == tap_program(native_arch, observed@),
        program.len() == observed.len() + 6,
        jumps_in_bounds(program@),
        forall|nr: u32, arch: u32, arg0: u32|
            #[trigger] seccomp_verdict(program@, nr, arch, arg0) == tap_decision(
                native_arch,
                observed@,
                nr,
                arch,
            ),
{
    let n = observed.len();
    let mut program: Vec<SockFilter> = Vec::new();
    program.push(stmt(BPF_LD_W_ABS, DATA_ARCH));
    program.push(jump(BPF_JEQ_K, native_arch, 1, 0));
    program.push(stmt(BPF_RET_K, SECCOMP_RET_KILL_PROCESS));
    program.push(stmt(BPF_LD_W_ABS, DATA_NR));
    let ghost head = program@;
    let ghost block = tap_branches(observed@);
    let mut i: usize = 0;
    while i < n
        invariant
            n == observed.len(),
            n <= MAX_OBSERVED,
            i <= n,
            block == tap_branches(observed@),
            program@ =~= head + block.take(i as int),
        decreases n - i,
    {
        let remaining = n - i;
        program.push(jump(BPF_JEQ_K, observed[i] as u32, remaining as u8, 0));
        assert(block.take(i as int).push(block[i as int]) =~= block.take(i + 1));
        i += 1;
    }
    assert(block.take(n as int) =~= block);
    program.push(stmt(BPF_RET_K, SECCOMP_RET_ALLOW));
    program.push(stmt(BPF_RET_K, SECCOMP_RET_USER_NOTIF));
    assert(program@ =~= tap_program(native_arch, observed@));
    proof {
        let prog = program@;
        assert forall|k: int|
            0 <= k < prog.len() && (prog[k].code == BPF_JEQ_K || prog[k].code
                == crate::bpf::BPF_JSET_K) implies {
            &&& k + 1 + prog[k].jt < prog.len()
            &&& k + 1 + prog[k].jf < prog.len()
        } by {
            if 4 <= k < 4 + n {
                assert(prog[k] == block[k - 4]);
                assert(((n - (k - 4)) as u8) as int == n - (k - 4));
            }
        }
        assert forall|nr: u32, arch: u32, arg0: u32|
            #[trigger] seccomp_verdict(program@, nr, arch, arg0) == tap_decision(
                native_arch,
                observed@,
                nr,
                arch,
            ) by {
            lemma_tap_semantics(native_arch, observed@, nr, arch, arg0);
        }
    }
    program
}


/// How an observed path argument relates to the policy. An observation
/// label only: the kernel decision belongs to Landlock.
#[derive(Debug, Clone, Copy, PartialEq, Eq, Structural)]
pub enum NotificationClass {
    Allowed,
    Blocked,
    Unclassified,
}

/// The parts of the policy that classification reads: the read roots, the
/// write roots (which grant reading too), and the carved-out denied paths.
#[derive(Debug, Clone, PartialEq, Eq)]
pub struct PathScope {
    pub allow_read: Vec<String>,
    pub allow_write: Vec<String>,
    pub deny: Vec<String>,
}

/// Some path of `roots` is a component prefix of `p`.
pub open spec fn under_any(p: Seq<char>, roots: Seq<Seq<char>>) -> bool {
    exists|i: int| 0 <= i < roots.len() && crate::paths::path_starts_with(p, #[trigger] roots[i])
}

/// `path` made absolute against the sandbox's working directory.
pub open spec fn absolutize_spec(path: Seq<char>, cwd: Seq<char>) -> Seq<char> {
    if path.len() > 0 && path[0] == '/' {
        path
    } else {
        crate::paths::join_spec(cwd, path)
    }
}

/// The class of an optional syscall path: none is unclassified; an
/// abstract socket name (`@...`) and anything under a denied path are
/// blocked, checked before the allow roots; else allowed exactly when a
/// read or write root covers it.
pub open spec fn classify_spec(path: Option<Seq<char>>, cwd: Seq<char>, scope: PathScope) -> NotificationClass {
    match path {
        None => NotificationClass::Unclassified,
        Some(p) => if p.len() > 0 && p[0] == '@' {
            NotificationClass::Blocked
        } else {
            let a = absolutize_spec(p, cwd);
            if under_any(a, crate::linux::net_relay::strings_view(scope.deny@)) {
                NotificationClass::Blocked
            } else if under_any(a, crate::linux::net_relay::strings_view(scope.allow_read@))
                || under_any(a, crate::linux::net_relay::strings_view(scope.allow_write@)) {
                NotificationClass::Allowed
            } else {
                NotificationClass::Blocked
            }
        },
    }
}

pub(crate) fn under_any_root(p: &[char], roots: &Vec<String>) -> (r: bool)
    ensures
        r == under_any(p@, crate::linux::net_relay::strings_view(roots@)),
{
    let ghost rv = crate::linux::net_relay::strings_view(roots@);
    let mut i: usize = 0;
    while i < roots.len()
        invariant
            i <= roots.len(),
            rv == crate::linux::net_relay::strings_view(roots@),
            forall|k: int| 0 <= k < i ==> !crate::paths::path_starts_with(p@, #[trigger] rv[k]),
        decreases roots.len() - i,
    {
        let root = crate::text::chars_of(roots[i].as_str());
        if crate::paths::starts_with_path(p, root.as_slice()) {
            assert(rv[i as int] == roots@[i as int]@);
            return true;
        }
        i += 1;
    }
    false
}

/// Classifies an optional syscall path against the effective read policy.
pub fn classify_notification_path(path: Option<&str>, sandbox_cwd: &str, scope: &PathScope) -> (c: NotificationClass)
    ensures
        c == classify_spec(
            match path {
                Some(p) => Some(p@),
                None => None,
            },
            sandbox_cwd@,
            *scope,
        ),
{
    let p = match path {
        None => return NotificationClass::Unclassified,
        Some(p) => p,
    };
    let pc = crate::text::chars_of(p);
    if pc.len() > 0 && pc[0] == '@' {
        return NotificationClass::Blocked;
    }
    let abs: Vec<char> = if pc.len() > 0 && pc[0] == '/' {
        pc
    } else {
        let joined = crate::paths::join_relative(sandbox_cwd, p);
        crate::text::chars_of(joined.as_str())
    };
    if under_any_root(abs.as_slice(), &scope.deny) {
        return NotificationClass::Blocked;
    }
    if under_any_root(abs.as_slice(), &scope.allow_read) || under_any_root(abs.as_slice(), &scope.allow_write) {
        NotificationClass::Allowed
    } else {
        NotificationClass::Blocked
    }
}

/// Where the first NUL byte of `b` is, or its length.
pub open spec fn nul_end(b: Seq<u8>) -> int
    decreases b.len(),
{
    if b.len() == 0 {
        0
    } else if b[0] == 0 {
        0
    } else {
        1 + nul_end(b.drop_first())
    }
}

fn find_nul(b: &[u8], from: usize) -> (e: usize)
    requires
        from <= b.len(),
    ensures
        from <= e <= b.len(),
        e - from == nul_end(b@.skip(from as int)),
{
    let mut i: usize = from;
    assert(b@.skip(from as int).skip(0) =~= b@.skip(from as int));
    while i < b.len() && b[i] != 0
        invariant
            from <= i <= b.len(),
            nul_end(b@.skip(from as int)) == (i - from) + nul_end(b@.skip(i as int)),
        decreases b.len() - i,
    {
        assert(b@.skip(i as int).drop_first() =~= b@.skip(i + 1));
        i += 1;
    }
    i
}

/// The path a traced call names in memory: the text before the first NUL,
/// `None` when that is empty.
pub open spec fn c_string_path_spec(buf: Seq<u8>) -> Option<Seq<char>> {
    let e = nul_end(buf);
    if e == 0 {
        None
    } else {
        Some(crate::text::utf8_lossy(buf.take(e)))
    }
}

/// Reads the NUL-terminated path a traced call passed.
pub fn c_string_path(buf: &[u8]) -> (r: Option<String>)
    ensures
        opt_text(r) == c_string_path_spec(buf@),
{
    let e = find_nul(buf, 0);
    assert(buf@.skip(0) =~= buf@);
    if e == 0 {
        None
    } else {
        let head = crate::text::byte_range(buf, 0, e);
        Some(crate::text::from_utf8_lossy(head.as_slice()))
    }
}

/// The text of an optional string.
pub open spec fn opt_text(o: Option<String>) -> Option<Seq<char>> {
    match o {
        Some(s) => Some(s@),
        None => None,
    }
}

/// The Unix socket a `connect` or `bind` names, from the socket address it
/// passed (`little_endian` says how the family is stored): an abstract name
/// as `@name`, a path as itself; `None` for another family or an empty name.
pub open spec fn sockaddr_path_spec(sa: Seq<u8>, little_endian: bool) -> Option<Seq<char>> {
    if sa.len() < 2 {
        None
    } else {
        let family: int = if little_endian {
            sa[0] + 256 * sa[1]
        } else {
            256 * sa[0] + sa[1]
        };
        let end: int = if sa.len() < 110 {
            sa.len() as int
        } else {
            110
        };
        let p = sa.subrange(2, end);
        if family != 1 || p.len() == 0 {
            None
        } else if p[0] == 0 {
            let name = p.drop_first();
            let e = nul_end(name);
            if e > 0 {
                Some("@"@ + crate::text::utf8_lossy(name.take(e)))
            } else {
                None
            }
        } else {
            let e = nul_end(p);
            if e > 0 {
                Some(crate::text::utf8_lossy(p.take(e)))
            } else {
                None
            }
        }
    }
}

/// Reads the Unix socket a `connect` or `bind` names.
pub fn sockaddr_path(sa: &[u8], little_endian: bool) -> (r: Option<String>)
    ensures
        opt_text(r) == sockaddr_path_spec(sa@, little_endian),
{
    if sa.len() < 2 {
        return None;
    }
    let family: u32 = if little_endian {
        sa[0] as u32 + 256 * (sa[1] as u32)
    } else {
        256 * (sa[0] as u32) + sa[1] as u32
    };
    let end: usize = if sa.len() < 110 {
        sa.len()
    } else {
        110
    };
    let ghost p = sa@.subrange(2, end as int);
    if family != 1 || end == 2 {
        return None;
    }
    let head = crate::text::byte_range(sa, 0, end);
    if sa[2] == 0 {
        let e = find_nul(head.as_slice(), 3);
        proof {
            assert(p.drop_first() =~= sa@.subrange(0, end as int).skip(3));
        }
        if e > 3 {
            let name = crate::text::byte_range(sa, 3, e);
            proof {
                assert(name@ =~= p.drop_first().take(e - 3));
            }
            let mut out = crate::text::chars_of("@");
            let text = crate::text::from_utf8_lossy(name.as_slice());
            let tc = crate::text::chars_of(text.as_str());
            crate::text::append_chars(&mut out, tc.as_slice());
            Some(crate::text::string_of(out.as_slice()))
        } else {
            None
        }
    } else {
        let e = find_nul(head.as_slice(), 2);
        proof {
            assert(p =~= sa@.subrange(0, end as int).skip(2));
        }
        if e > 2 {
            let name = crate::text::byte_range(sa, 2, e);
            proof {
                assert(name@ =~= p.take(e - 2));
            }
            Some(crate::text::from_utf8_lossy(name.as_slice()))
        } else {
            None
        }
    }
}

/// The numbers of the privileged calls that an enforcement allow list may
/// name in words (`mount`, `umount`/`umount2`, `pivot_root`, `chroot`,
/// `syslog`) on the target ABI.
#[derive(Clone, Copy, Debug)]
pub struct PrivilegedSyscalls {
    pub mount: i32,
    pub umount2: i32,
    pub pivot_root: i32,
    pub chroot: i32,
    pub syslog: i32,
}

/// Whether the allow-list word `name` names call `nr`.
pub open spec fn names_syscall(t: PrivilegedSyscalls, nr: i32, name: Seq<char>) -> bool {
    if name == "mount"@ {
        nr == t.mount
    } else if name == "umount"@ || name == "umount2"@ {
        nr == t.umount2
    } else if name == "pivot_root"@ {
        nr == t.pivot_root
    } else if name == "chroot"@ {
        nr == t.chroot
    } else if name == "syslog"@ {
        nr == t.syslog
    } else {
        false
    }
}

/// Whether one allow-list entry admits call `nr`: as a decimal number, or as
/// one of the names above.
pub open spec fn entry_admits(t: PrivilegedSyscalls, nr: i32, entry: Seq<char>) -> bool {
    crate::linux::visibility::parse_i32_spec(entry) == Some(nr) || names_syscall(t, nr, entry)
}

/// Whether the allow-list word `name` names call `nr`.
pub fn match_syscall_name(t: &PrivilegedSyscalls, nr: i32, name: &str) -> (r: bool)
    ensures
        r == names_syscall(*t, nr, name@),
{
    let n = crate::text::chars_of(name);
    if crate::text::chars_eq(n.as_slice(), crate::text::chars_of("mount").as_slice()) {
        nr == t.mount
    } else if crate::text::chars_eq(n.as_slice(), crate::text::chars_of("umount").as_slice())
        || crate::text::chars_eq(n.as_slice(), crate::text::chars_of("umount2").as_slice()) {
        nr == t.umount2
    } else if crate::text::chars_eq(n.as_slice(), crate::text::chars_of("pivot_root").as_slice()) {
        nr == t.pivot_root
    } else if crate::text::chars_eq(n.as_slice(), crate::text::chars_of("chroot").as_slice()) {
        nr == t.chroot
    } else if crate::text::chars_eq(n.as_slice(), crate::text::chars_of("syslog").as_slice()) {
        nr == t.syslog
    } else {
        false
    }
}

/// Whether any entry of the allow list admits call `nr`.
pub fn is_syscall_allowed(t: &PrivilegedSyscalls, nr: i32, allow_list: &[String]) -> (r: bool)
    ensures
        r == exists|i: int| 0 <= i < allow_list@.len() && entry_admits(*t, nr, #[trigger] allow_list@[i]@),
{
    let mut i: usize = 0;
    while i < allow_list.len()
        invariant
            i <= allow_list.len(),
            forall|j: int| 0 <= j < i ==> !entry_admits(*t, nr, #[trigger] allow_list@[j]@),
        decreases allow_list.len() - i,
    {
        let entry = &allow_list[i];
        let cs = crate::text::chars_of(entry.as_str());
        let by_number = match crate::linux::visibility::parse_i32(cs.as_slice()) {
            Some(v) => v == nr,
            None => false,
        };
        if by_number || match_syscall_name(t, nr, entry.as_str()) {
            assert(entry_admits(*t, nr, allow_list@[i as int]@));
            return true;
        }
        i += 1;
    }
    false
}

/// What the enforcing supervisor does with an intercepted call: let it go on
/// (`true`) when the default action is `allow` or the allow list admits it,
/// and refuse it with `EPERM` otherwise.
pub fn enforcement_allows(
    t: &PrivilegedSyscalls,
    nr: i32,
    default_action: &Option<String>,
    allow_list: &[String],
) -> (r: bool)
    ensures
        r == ((default_action is Some && default_action->0@ == "allow"@)
            || exists|i: int| 0 <= i < allow_list@.len() && entry_admits(*t, nr, #[trigger] allow_list@[i]@)),
{
    let default_allow = match default_action {
        Some(a) => {
            let cs = crate::text::chars_of(a.as_str());
            crate::text::chars_eq(cs.as_slice(), crate::text::chars_of("allow").as_slice())
        },
        None => false,
    };
    default_allow || is_syscall_allowed(t, nr, allow_list)
}

/// The harmless system files that the opt-in descriptor substitution may
/// stand in for, by exact path.
pub open spec fn substitutable_path(p: Seq<char>) -> bool {
    ||| p == "/etc/hostname"@
    ||| p == "/etc/issue"@
    ||| p == "/etc/os-release"@
    ||| p == "/proc/kcore"@
    ||| p == "/proc/kallsyms"@
    ||| p == "/proc/sys/kernel/core_pattern"@
    ||| p == "/proc/version_signature"@
}

/// Whether `path` is one of the exact system files a descriptor substitution
/// may target.
pub fn is_supported_system_path(path: &str) -> (r: bool)
    ensures
        r == substitutable_path(path@),
{
    let p = crate::text::chars_of(path);
    let ps = p.as_slice();
    crate::text::chars_eq(ps, crate::text::chars_of("/etc/hostname").as_slice())
        || crate::text::chars_eq(ps, crate::text::chars_of("/etc/issue").as_slice())
        || crate::text::chars_eq(ps, crate::text::chars_of("/etc/os-release").as_slice())
        || crate::text::chars_eq(ps, crate::text::chars_of("/proc/kcore").as_slice())
        || crate::text::chars_eq(ps, crate::text::chars_of("/proc/kallsyms").as_slice())
        || crate::text::chars_eq(ps, crate::text::chars_of("/proc/sys/kernel/core_pattern").as_slice())
        || crate::text::chars_eq(ps, crate::text::chars_of("/proc/version_signature").as_slice())
}

} // verus!
