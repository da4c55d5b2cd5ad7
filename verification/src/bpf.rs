//! Classic BPF instructions as used by seccomp filters, and the meaning of a
//! filter program for one system call.
use vstd::prelude::*;

verus! {

/// `BPF_LD | BPF_W | BPF_ABS`: load a 32-bit word of `seccomp_data`.
pub const BPF_LD_W_ABS: u16 = 0x20;

/// `BPF_JMP | BPF_JEQ | BPF_K`: branch on equality with the constant.
pub const BPF_JEQ_K: u16 = 0x15;

/// `BPF_JMP | BPF_JSET | BPF_K`: branch when any bit of the constant is set.
pub const BPF_JSET_K: u16 = 0x45;

/// `BPF_RET | BPF_K`: return the constant as the filter's verdict.
pub const BPF_RET_K: u16 = 0x06;

/// Verdict that kills the whole process.
pub const SECCOMP_RET_KILL_PROCESS: u32 = 0x8000_0000;

/// Verdict that lets the system call run.
pub const SECCOMP_RET_ALLOW: u32 = 0x7fff_0000;

/// Verdict base that makes the system call fail with the errno in the low bits.
pub const SECCOMP_RET_ERRNO: u32 = 0x0005_0000;

/// Verdict that hands the system call to a user-space listener.
pub const SECCOMP_RET_USER_NOTIF: u32 = 0x7fc0_0000;

/// Offset of the system call number in `seccomp_data`.
pub const DATA_NR: u32 = 0;

/// Offset of the audit architecture in `seccomp_data`.
pub const DATA_ARCH: u32 = 4;

/// Offset of the low word of the first system call argument in `seccomp_data`.
pub const DATA_ARG0: u32 = 16;

/// One classic BPF instruction (`struct sock_filter`).
#[derive(Clone, Copy, Debug, PartialEq, Eq, Structural)]
pub struct SockFilter {
    pub code: u16,
    pub jt: u8,
    pub jf: u8,
    pub k: u32,
}

/// The instruction with the given fields.
pub open spec fn insn(code: u16, jt: u8, jf: u8, k: u32) -> SockFilter {
    SockFilter { code, jt, jf, k }
}

/// A non-branching instruction.
pub fn stmt(code: u16, k: u32) -> (f: SockFilter)
    ensures
        f == insn(code, 0, 0, k),
{
    SockFilter { code, jt: 0, jf: 0, k }
}

/// A conditional branch: `jt` and `jf` count the instructions skipped.
pub fn jump(code: u16, k: u32, jt: u8, jf: u8) -> (f: SockFilter)
    ensures
        f == insn(code, jt, jf, k),
{
    SockFilter { code, jt, jf, k }
}

/// The word that an absolute load at `offset` reads for a call with system
/// call number `nr`, architecture `arch` and first argument `arg0`.
pub open spec fn load_word(offset: u32, nr: u32, arch: u32, arg0: u32) -> u32 {
    if offset == DATA_NR {
        nr
    } else if offset == DATA_ARCH {
        arch
    } else if offset == DATA_ARG0 {
        arg0
    } else {
        0
    }
}

/// Whether the branch instruction `ins` is taken with accumulator `acc`.
pub open spec fn branch_taken(ins: SockFilter, acc: u32) -> bool {
    (ins.code == BPF_JEQ_K && acc == ins.k) || (ins.code == BPF_JSET_K && acc & ins.k != 0)
}

/// The verdict of `prog` when execution is at `pc` with accumulator `acc`.
/// Running off the program, or an instruction outside the subset used here,
/// yields 0 (`SECCOMP_RET_KILL_THREAD`).
pub open spec fn eval_from(prog: Seq<SockFilter>, pc: int, acc: u32, nr: u32, arch: u32, arg0: u32) -> u32
    decreases prog.len() - pc,
{
    if pc < 0 || pc >= prog.len() {
        0
    } else {
        let ins = prog[pc];
        if ins.code == BPF_RET_K {
            ins.k
        } else if ins.code == BPF_LD_W_ABS {
            eval_from(prog, pc + 1, load_word(ins.k, nr, arch, arg0), nr, arch, arg0)
        } else if ins.code == BPF_JEQ_K || ins.code == BPF_JSET_K {
            let next = if branch_taken(ins, acc) {
                pc + 1 + ins.jt
            } else {
                pc + 1 + ins.jf
            };
            if next < prog.len() {
                eval_from(prog, next, acc, nr, arch, arg0)
            } else {
                0
            }
        } else {
            0
        }
    }
}

/// The verdict of the filter `prog` for one system call.
pub open spec fn seccomp_verdict(prog: Seq<SockFilter>, nr: u32, arch: u32, arg0: u32) -> u32 {
    eval_from(prog, 0, 0, nr, arch, arg0)
}

/// Every branch of `prog` lands inside `prog`.
pub open spec fn jumps_in_bounds(prog: Seq<SockFilter>) -> bool {
    forall|i: int|
        0 <= i < prog.len() && (prog[i].code == BPF_JEQ_K || prog[i].code == BPF_JSET_K) ==> {
            &&& i + 1 + prog[i].jt < prog.len()
            &&& i + 1 + prog[i].jf < prog.len()
        }
}

/// The `AUDIT_ARCH_*` value that the kernel reports for native system calls
/// of the named target architecture, or 0 (matching no system call) for an
/// architecture this crate does not know.
pub open spec fn audit_arch_spec(target_arch: Seq<char>) -> u32 {
    if target_arch == seq!['x', '8', '6', '_', '6', '4'] {
        0xC000_003E
    } else if target_arch == seq!['a', 'a', 'r', 'c', 'h', '6', '4'] {
        0xC000_00B7
    } else if target_arch == seq!['x', '8', '6'] {
        0x4000_0003
    } else if target_arch == seq!['a', 'r', 'm'] {
        0x4000_0028
    } else if target_arch == seq!['r', 'i', 's', 'c', 'v', '6', '4'] {
        0xC000_00F3
    } else {
        0
    }
}

/// The native audit architecture of `target_arch` (as Rust names it in
/// `std::env::consts::ARCH`).
pub fn audit_arch_for(target_arch: &str) -> (arch: u32)
    ensures
        arch == audit_arch_spec(target_arch@),
{
    let cs = crate::text::chars_of(target_arch);
    let x86_64 = ['x', '8', '6', '_', '6', '4'];
    let aarch64 = ['a', 'a', 'r', 'c', 'h', '6', '4'];
    let x86 = ['x', '8', '6'];
    let arm = ['a', 'r', 'm'];
    let riscv64 = ['r', 'i', 's', 'c', 'v', '6', '4'];
    if crate::text::chars_eq(cs.as_slice(), x86_64.as_slice()) {
        assert(x86_64@ == seq!['x', '8', '6', '_', '6', '4']);
        0xC000_003E
    } else if crate::text::chars_eq(cs.as_slice(), aarch64.as_slice()) {
        assert(aarch64@ == seq!['a', 'a', 'r', 'c', 'h', '6', '4']);
        0xC000_00B7
    } else if crate::text::chars_eq(cs.as_slice(), x86.as_slice()) {
        assert(x86@ == seq!['x', '8', '6']);
        0x4000_0003
    } else if crate::text::chars_eq(cs.as_slice(), arm.as_slice()) {
        assert(arm@ == seq!['a', 'r', 'm']);
        0x4000_0028
    } else if crate::text::chars_eq(cs.as_slice(), riscv64.as_slice()) {
        assert(riscv64@ == seq!['r', 'i', 's', 'c', 'v', '6', '4']);
        0xC000_00F3
    } else {
        proof {
            assert(x86_64@ == seq!['x', '8', '6', '_', '6', '4']);
            assert(aarch64@ == seq!['a', 'a', 'r', 'c', 'h', '6', '4']);
            assert(x86@ == seq!['x', '8', '6']);
            assert(arm@ == seq!['a', 'r', 'm']);
            assert(riscv64@ == seq!['r', 'i', 's', 'c', 'v', '6', '4']);
        }
        0
    }
}

} // verus!
