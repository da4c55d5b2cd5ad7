//! The network kill-switch and hardening filter for the filesystem-only
//! tier: a seccomp program that refuses every socket family but the ones the
//! policy names, and a fixed set of escape-prone system calls.
use vstd::prelude::*;
use crate::bpf::{
    eval_from, insn, jump, jumps_in_bounds, seccomp_verdict, stmt, SockFilter, BPF_JEQ_K, BPF_JSET_K,
    BPF_LD_W_ABS, BPF_RET_K, DATA_ARCH, DATA_ARG0, DATA_NR, SECCOMP_RET_ALLOW, SECCOMP_RET_KILL_PROCESS,
};

verus! {

/// `AF_UNIX`.
pub const AF_UNIX: u32 = 1;

/// `AF_INET`.
pub const AF_INET: u32 = 2;

/// `AF_INET6`.
pub const AF_INET6: u32 = 10;

/// `EPERM`.
pub const EPERM: u32 = 1;

/// `EAFNOSUPPORT`.
pub const EAFNOSUPPORT: u32 = 97;

/// Bit that marks a system call of the x32 ABI.
pub const X32_SYSCALL_BIT: u32 = 0x4000_0000;

/// Verdict for a refused socket family: `SECCOMP_RET_ERRNO | EAFNOSUPPORT`.
pub const DENY_FAMILY: u32 = 0x0005_0061;

/// Verdict for a hardening system call: `SECCOMP_RET_ERRNO | EPERM`.
pub const DENY_HARDENING: u32 = 0x0005_0001;

/// Longest hardening list whose branch offsets fit in one byte.
pub const MAX_HARDENING: usize = 240;

/// Socket families available to the agent after the filter is installed.
/// Both permit local `AF_UNIX`; the allowlist relay also needs IPv4/IPv6.
#[derive(Clone, Copy, Debug, PartialEq, Eq, Structural)]
pub enum SocketPolicy {
    UnixOnly,
    UnixAndIp,
}

/// The system call numbers of the target ABI that the filter names.
pub struct NetblockSyscalls {
    pub socket: u32,
    pub socketpair: u32,
    /// Calls refused with `EPERM` (mount teardown, ptrace, module loading...).
    pub hardening: Vec<u32>,
}

/// Whether `family` may be created under `policy`.
pub open spec fn family_allowed(policy: SocketPolicy, family: u32) -> bool {
    family == AF_UNIX || (policy == SocketPolicy::UnixAndIp && (family == AF_INET || family
        == AF_INET6))
}

/// What the filter decides for one system call.
pub open spec fn netblock_decision(
    native_arch: u32,
    socket: u32,
    socketpair: u32,
    hardening: Seq<u32>,
    policy: SocketPolicy,
    nr: u32,
    arch: u32,
    arg0: u32,
) -> u32 {
    if arch != native_arch {
        SECCOMP_RET_KILL_PROCESS
    } else if nr & X32_SYSCALL_BIT != 0 {
        SECCOMP_RET_KILL_PROCESS
    } else if nr == socket || nr == socketpair {
        if family_allowed(policy, arg0) {
            SECCOMP_RET_ALLOW
        } else {
            DENY_FAMILY
        }
    } else if hardening.contains(nr) {
        DENY_HARDENING
    } else {
        SECCOMP_RET_ALLOW
    }
}

/// Instructions 0..8: architecture check, x32 check, socket branches.
pub open spec fn netblock_head(native_arch: u32, socket: u32, socketpair: u32, n: nat) -> Seq<SockFilter> {
    seq![
        insn(BPF_LD_W_ABS, 0, 0, DATA_ARCH),
        insn(BPF_JEQ_K, 1, 0, native_arch),
        insn(BPF_RET_K, 0, 0, SECCOMP_RET_KILL_PROCESS),
        insn(BPF_LD_W_ABS, 0, 0, DATA_NR),
        insn(BPF_JSET_K, 0, 1, X32_SYSCALL_BIT),
        insn(BPF_RET_K, 0, 0, SECCOMP_RET_KILL_PROCESS),
        insn(BPF_JEQ_K, (n + 3) as u8, 0, socket),
        insn(BPF_JEQ_K, (n + 2) as u8, 0, socketpair),
    ]
}

/// One branch per hardening call, each to the shared `EPERM` return.
pub open spec fn netblock_hardening(hardening: Seq<u32>) -> Seq<SockFilter> {
    Seq::new(
        hardening.len(),
        |j: int| insn(BPF_JEQ_K, (hardening.len() - j) as u8, 0, hardening[j]),
    )
}

/// The allow and `EPERM` returns, then the socket-family inspection.
pub open spec fn netblock_tail(policy: SocketPolicy) -> Seq<SockFilter> {
    let (inet_jt, inet_jf, inet6_jt, inet6_jf): (u8, u8, u8, u8) = match policy {
        SocketPolicy::UnixOnly => (1, 1, 0, 0),
        SocketPolicy::UnixAndIp => (2, 0, 1, 0),
    };
    seq![
        insn(BPF_RET_K, 0, 0, SECCOMP_RET_ALLOW),
        insn(BPF_RET_K, 0, 0, DENY_HARDENING),
        insn(BPF_LD_W_ABS, 0, 0, DATA_ARG0),
        insn(BPF_JEQ_K, 3, 0, AF_UNIX),
        insn(BPF_JEQ_K, inet_jt, inet_jf, AF_INET),
        insn(BPF_JEQ_K, inet6_jt, inet6_jf, AF_INET6),
        insn(BPF_RET_K, 0, 0, DENY_FAMILY),
        insn(BPF_RET_K, 0, 0, SECCOMP_RET_ALLOW),
    ]
}

/// The whole program.
pub open spec fn netblock_program(
    native_arch: u32,
    socket: u32,
    socketpair: u32,
    hardening: Seq<u32>,
    policy: SocketPolicy,
) -> Seq<SockFilter> {
    netblock_head(native_arch, socket, socketpair, hardening.len()) + netblock_hardening(hardening)
        + netblock_tail(policy)
}

/// From the first hardening branch at `8 + j` on, the program refuses exactly
/// the calls named from `j` on and allows the rest.
proof fn lemma_hardening_chain(
    native_arch: u32,
    socket: u32,
    socketpair: u32,
    hardening: Seq<u32>,
    policy: SocketPolicy,
    j: int,
    nr: u32,
    arch: u32,
    arg0: u32,
)
    requires
        0 <= j <= hardening.len(),
        hardening.len() <= MAX_HARDENING,
    ensures
        eval_from(netblock_program(native_arch, socket, socketpair, hardening, policy), 8 + j, nr, nr, arch, arg0)
            == if exists|k: int| j <= k < hardening.len() && hardening[k] == nr {
            DENY_HARDENING
        } else {
            SECCOMP_RET_ALLOW
        },
    decreases hardening.len() - j,
{
    let prog = netblock_program(native_arch, socket, socketpair, hardening, policy);
    let n = hardening.len() as int;
    assert(prog.len() == 16 + n);
    assert(prog[8 + n] == insn(BPF_RET_K, 0, 0, SECCOMP_RET_ALLOW));
    assert(prog[9 + n] == insn(BPF_RET_K, 0, 0, DENY_HARDENING));
    if j == n {
        assert(eval_from(prog, 8 + j, nr, nr, arch, arg0) == SECCOMP_RET_ALLOW);
    } else {
        lemma_hardening_chain(native_arch, socket, socketpair, hardening, policy, j + 1, nr, arch, arg0);
        let ins = prog[8 + j];
        assert(ins == insn(BPF_JEQ_K, (n - j) as u8, 0, hardening[j]));
        assert(((n - j) as u8) as int == n - j);
        assert(eval_from(prog, 9 + n, nr, nr, arch, arg0) == DENY_HARDENING);
        if hardening[j] == nr {
            assert(eval_from(prog, 8 + j, nr, nr, arch, arg0) == DENY_HARDENING);
        } else {
            assert(eval_from(prog, 8 + j, nr, nr, arch, arg0) == eval_from(prog, 9 + j, nr, nr, arch, arg0));
            if exists|k: int| j <= k < n && hardening[k] == nr {
                let k = choose|k: int| j <= k < n && hardening[k] == nr;
                assert(j + 1 <= k);
            }
        }
    }
}

/// The socket-family block decides by `arg0` alone.
proof fn lemma_family_block(
    native_arch: u32,
    socket: u32,
    socketpair: u32,
    hardening: Seq<u32>,
    policy: SocketPolicy,
    acc: u32,
    nr: u32,
    arch: u32,
    arg0: u32,
)
    requires
        hardening.len() <= MAX_HARDENING,
    ensures
        eval_from(netblock_program(native_arch, socket, socketpair, hardening, policy), 10 + hardening.len() as int, acc, nr, arch, arg0)
            == if family_allowed(policy, arg0) {
            SECCOMP_RET_ALLOW
        } else {
            DENY_FAMILY
        },
{
    let prog = netblock_program(native_arch, socket, socketpair, hardening, policy);
    let n = hardening.len() as int;
    let t = netblock_tail(policy);
    assert(prog.len() == 16 + n);
    assert forall|i: int| 0 <= i < 8 implies prog[8 + n + i] == t[i] by {}
    let d = 10 + n;
    assert(eval_from(prog, d + 5, arg0, nr, arch, arg0) == SECCOMP_RET_ALLOW);
    assert(eval_from(prog, d + 4, arg0, nr, arch, arg0) == DENY_FAMILY);
    assert(eval_from(prog, d + 3, arg0, nr, arch, arg0) == (if arg0 == AF_INET6 && policy
        == SocketPolicy::UnixAndIp {
        SECCOMP_RET_ALLOW
    } else {
        DENY_FAMILY
    }));
    assert(eval_from(prog, d + 2, arg0, nr, arch, arg0) == (if (arg0 == AF_INET || arg0
        == AF_INET6) && policy == SocketPolicy::UnixAndIp {
        SECCOMP_RET_ALLOW
    } else {
        DENY_FAMILY
    }));
    assert(eval_from(prog, d + 1, arg0, nr, arch, arg0) == (if family_allowed(policy, arg0) {
        SECCOMP_RET_ALLOW
    } else {
        DENY_FAMILY
    }));
}

/// The filter's verdict for every system call is `netblock_decision`.
pub proof fn lemma_netblock_semantics(
    native_arch: u32,
    socket: u32,
    socketpair: u32,
    hardening: Seq<u32>,
    policy: SocketPolicy,
    nr: u32,
    arch: u32,
    arg0: u32,
)
    requires
        hardening.len() <= MAX_HARDENING,
    ensures
        seccomp_verdict(netblock_program(native_arch, socket, socketpair, hardening, policy), nr, arch, arg0)
            == netblock_decision(native_arch, socket, socketpair, hardening, policy, nr, arch, arg0),
{
    let prog = netblock_program(native_arch, socket, socketpair, hardening, policy);
    let n = hardening.len() as int;
    let h = netblock_head(native_arch, socket, socketpair, hardening.len());
    assert(prog.len() == 16 + n);
    assert forall|i: int| 0 <= i < 8 implies prog[i] == h[i] by {}
    assert(((n + 3) as u8) as int == n + 3);
    assert(((n + 2) as u8) as int == n + 2);
    lemma_family_block(native_arch, socket, socketpair, hardening, policy, nr, nr, arch, arg0);
    lemma_hardening_chain(native_arch, socket, socketpair, hardening, policy, 0, nr, arch, arg0);
    assert(hardening.contains(nr) == exists|k: int| 0 <= k < n && hardening[k] == nr);
    assert(eval_from(prog, 7, nr, nr, arch, arg0) == if nr == socketpair {
        eval_from(prog, 10 + n, nr, nr, arch, arg0)
    } else {
        eval_from(prog, 8, nr, nr, arch, arg0)
    });
    assert(eval_from(prog, 6, nr, nr, arch, arg0) == if nr == socket {
        eval_from(prog, 10 + n, nr, nr, arch, arg0)
    } else {
        eval_from(prog, 7, nr, nr, arch, arg0)
    });
    assert(eval_from(prog, 5, nr, nr, arch, arg0) == SECCOMP_RET_KILL_PROCESS);
    assert(eval_from(prog, 4, nr, nr, arch, arg0) == if nr & X32_SYSCALL_BIT != 0 {
        SECCOMP_RET_KILL_PROCESS
    } else {
        eval_from(prog, 6, nr, nr, arch, arg0)
    });
    assert(eval_from(prog, 2, arch, nr, arch, arg0) == SECCOMP_RET_KILL_PROCESS);
    assert(eval_from(prog, 1, arch, nr, arch, arg0) == if arch == native_arch {
        eval_from(prog, 3, arch, nr, arch, arg0)
    } else {
        eval_from(prog, 2, arch, nr, arch, arg0)
    });
}

/// Every branch of the filter stays inside it.
pub proof fn lemma_netblock_jumps(
    native_arch: u32,
    socket: u32,
    socketpair: u32,
    hardening: Seq<u32>,
    policy: SocketPolicy,
)
    requires
        hardening.len() <= MAX_HARDENING,
    ensures
        jumps_in_bounds(netblock_program(native_arch, socket, socketpair, hardening, policy)),
{
    let prog = netblock_program(native_arch, socket, socketpair, hardening, policy);
    let n = hardening.len() as int;
    let h = netblock_head(native_arch, socket, socketpair, hardening.len());
    let t = netblock_tail(policy);
    assert(((n + 3) as u8) as int == n + 3);
    assert(((n + 2) as u8) as int == n + 2);
    assert forall|i: int|
        0 <= i < prog.len() && (prog[i].code == BPF_JEQ_K || prog[i].code == BPF_JSET_K) implies {
        &&& i + 1 + prog[i].jt < prog.len()
        &&& i + 1 + prog[i].jf < prog.len()
    } by {
        if i < 8 {
            assert(prog[i] == h[i]);
        } else if i < 8 + n {
            assert(prog[i] == netblock_hardening(hardening)[i - 8]);
            assert(((n - (i - 8)) as u8) as int == n - (i - 8));
        } else {
            assert(prog[i] == t[i - 8 - n]);
        }
    }
}

/// Builds the filter: foreign architectures and the x32 ABI are killed, the
/// two socket calls are refused (`EAFNOSUPPORT`) for every family the policy
/// does not name, each hardening call fails with `EPERM`, and everything
/// else is allowed.
pub fn build_program(native_arch: u32, syscalls: &NetblockSyscalls, socket_policy: SocketPolicy) -> (program: Vec<SockFilter>)
    requires
        syscalls.hardening.len() <= MAX_HARDENING,
    ensures
        program@ == netblock_program(native_arch, syscalls.socket, syscalls.socketpair, syscalls.hardening@, socket_policy),
        program.len() == 16 + syscalls.hardening.len(),
        jumps_in_bounds(program@),
        forall|nr: u32, arch: u32, arg0: u32|
            #[trigger] seccomp_verdict(program@, nr, arch, arg0) == netblock_decision(
                native_arch,
                syscalls.socket,
                syscalls.socketpair,
                syscalls.hardening@,
                socket_policy,
                nr,
                arch,
                arg0,
            ),
{
    let n = syscalls.hardening.len();
    let (inet_jt, inet_jf, inet6_jt, inet6_jf): (u8, u8, u8, u8) = match socket_policy {
        SocketPolicy::UnixOnly => (1, 1, 0, 0),
        SocketPolicy::UnixAndIp => (2, 0, 1, 0),
    };
    let mut program: Vec<SockFilter> = Vec::new();
    program.push(stmt(BPF_LD_W_ABS, DATA_ARCH));
    program.push(jump(BPF_JEQ_K, native_arch, 1, 0));
    program.push(stmt(BPF_RET_K, SECCOMP_RET_KILL_PROCESS));
    program.push(stmt(BPF_LD_W_ABS, DATA_NR));
    program.push(jump(BPF_JSET_K, X32_SYSCALL_BIT, 0, 1));
    program.push(stmt(BPF_RET_K, SECCOMP_RET_KILL_PROCESS));
    // Both socket calls branch straight to the argument inspection.
    program.push(jump(BPF_JEQ_K, syscalls.socket, (n + 3) as u8, 0));
    program.push(jump(BPF_JEQ_K, syscalls.socketpair, (n + 2) as u8, 0));
    let ghost head = netblock_head(native_arch, syscalls.socket, syscalls.socketpair, n as nat);
    let ghost block = netblock_hardening(syscalls.hardening@);
    assert(program@ =~= head);
    let mut j: usize = 0;
    while j < n
        invariant
            n == syscalls.hardening.len(),
            n <= MAX_HARDENING,
            j <= n,
            block == netblock_hardening(syscalls.hardening@),
            program@ =~= head + block.take(j as int),
        decreases n - j,
    {
        // Every hardening branch lands on the one shared EPERM return.
        program.push(jump(BPF_JEQ_K, syscalls.hardening[j], (n - j) as u8, 0));
        assert(block.take(j as int).push(block[j as int]) =~= block.take(j + 1));
        j += 1;
    }
    assert(block.take(n as int) =~= block);
    program.push(stmt(BPF_RET_K, SECCOMP_RET_ALLOW));
    program.push(stmt(BPF_RET_K, DENY_HARDENING));
    program.push(stmt(BPF_LD_W_ABS, DATA_ARG0));
    program.push(jump(BPF_JEQ_K, AF_UNIX, 3, 0));
    program.push(jump(BPF_JEQ_K, AF_INET, inet_jt, inet_jf));
    program.push(jump(BPF_JEQ_K, AF_INET6, inet6_jt, inet6_jf));
    program.push(stmt(BPF_RET_K, DENY_FAMILY));
    program.push(stmt(BPF_RET_K, SECCOMP_RET_ALLOW));
    assert(program@ =~= netblock_program(
        native_arch,
        syscalls.socket,
        syscalls.socketpair,
        syscalls.hardening@,
        socket_policy,
    ));
    proof {
        lemma_netblock_jumps(native_arch, syscalls.socket, syscalls.socketpair, syscalls.hardening@, socket_policy);
        assert forall|nr: u32, arch: u32, arg0: u32|
            #[trigger] seccomp_verdict(program@, nr, arch, arg0) == netblock_decision(
                native_arch,
                syscalls.socket,
                syscalls.socketpair,
                syscalls.hardening@,
                socket_policy,
                nr,
                arch,
                arg0,
            ) by {
            lemma_netblock_semantics(
                native_arch,
                syscalls.socket,
                syscalls.socketpair,
                syscalls.hardening@,
                socket_policy,
                nr,
                arch,
                arg0,
            );
        }
    }
    program
}

} // verus!
