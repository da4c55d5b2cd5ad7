use vetto::linux::observe_seccomp::{c_string_path, sockaddr_path};
use vetto::bpf::{
    audit_arch_for, SockFilter, BPF_JEQ_K, BPF_JSET_K, BPF_LD_W_ABS, BPF_RET_K,
    SECCOMP_RET_ALLOW, SECCOMP_RET_KILL_PROCESS, SECCOMP_RET_USER_NOTIF,
};
use vetto::linux::observe_seccomp::{build_tap_program, SyscallTable};
use vetto::linux::seccomp_netblock::{
    build_program, NetblockSyscalls, SocketPolicy, AF_INET, AF_INET6, AF_UNIX, DENY_FAMILY,
    DENY_HARDENING, X32_SYSCALL_BIT,
};

const NATIVE: u32 = 0xC000_003E;

fn hardening() -> Vec<u32> {
    [
        libc::SYS_umount2,
        libc::SYS_mount,
        libc::SYS_pivot_root,
        libc::SYS_move_mount,
        libc::SYS_open_tree,
        libc::SYS_fsopen,
        libc::SYS_fsconfig,
        libc::SYS_fsmount,
        libc::SYS_fspick,
        libc::SYS_mount_setattr,
        libc::SYS_io_uring_setup,
        libc::SYS_io_uring_enter,
        libc::SYS_io_uring_register,
        libc::SYS_userfaultfd,
        libc::SYS_ptrace,
        libc::SYS_process_vm_readv,
        libc::SYS_process_vm_writev,
        libc::SYS_pidfd_getfd,
        libc::SYS_kexec_load,
        libc::SYS_kexec_file_load,
        libc::SYS_init_module,
        libc::SYS_finit_module,
        libc::SYS_delete_module,
        libc::SYS_perf_event_open,
        libc::SYS_bpf,
        libc::SYS_reboot,
        libc::SYS_swapon,
        libc::SYS_swapoff,
    ]
    .iter()
    .map(|n| *n as u32)
    .collect()
}

fn syscalls() -> NetblockSyscalls {
    NetblockSyscalls {
        socket: libc::SYS_socket as u32,
        socketpair: libc::SYS_socketpair as u32,
        hardening: hardening(),
    }
}

fn program(policy: SocketPolicy) -> Vec<SockFilter> {
    build_program(NATIVE, &syscalls(), policy)
}

fn table() -> SyscallTable {
    SyscallTable {
        open: Some(libc::SYS_open as i32),
        execve: libc::SYS_execve as i32,
        openat: libc::SYS_openat as i32,
        openat2: libc::SYS_openat2 as i32,
        execveat: libc::SYS_execveat as i32,
        connect: libc::SYS_connect as i32,
        bind: libc::SYS_bind as i32,
        unlink: Some(libc::SYS_unlink as i32),
        unlinkat: libc::SYS_unlinkat as i32,
        rename: Some(libc::SYS_rename as i32),
        renameat: libc::SYS_renameat as i32,
        renameat2: libc::SYS_renameat2 as i32,
        chmod: Some(libc::SYS_chmod as i32),
        fchmodat: libc::SYS_fchmodat as i32,
        fork: Some(libc::SYS_fork as i32),
        clone: libc::SYS_clone as i32,
        clone3: libc::SYS_clone3 as i32,
    }
}

fn eval(program: &[SockFilter], arch: u32, syscall: u32, family: u32) -> u32 {
    let mut pc = 0usize;
    let mut accumulator = 0u32;
    loop {
        let instruction = &program[pc];
        match instruction.code {
            BPF_LD_W_ABS => {
                accumulator = match instruction.k {
                    0 => syscall,
                    4 => arch,
                    16 => family,
                    offset => panic!("unexpected load offset {offset}"),
                };
                pc += 1;
            }
            BPF_JEQ_K => {
                pc += if accumulator == instruction.k {
                    instruction.jt as usize + 1
                } else {
                    instruction.jf as usize + 1
                };
            }
            BPF_JSET_K => {
                pc += if accumulator & instruction.k != 0 {
                    instruction.jt as usize + 1
                } else {
                    instruction.jf as usize + 1
                };
            }
            BPF_RET_K => return instruction.k,
            code => panic!("unexpected BPF opcode {code:#x}"),
        }
    }
}

#[test]
fn socket_policy_keeps_socket_targets_and_changes_family_jumps() {
    for program in [program(SocketPolicy::UnixOnly), program(SocketPolicy::UnixAndIp)] {
        assert_eq!(program.len(), 6 + 2 + hardening().len() + 2 + 6);
        for syscall in [libc::SYS_socket as u32, libc::SYS_socketpair as u32] {
            let (index, branch) = program
                .iter()
                .enumerate()
                .find(|(_, i)| i.code == BPF_JEQ_K && i.k == syscall)
                .expect("socket syscall branch");
            let target = index + 1 + branch.jt as usize;
            assert_eq!(program[target].code, BPF_LD_W_ABS);
            assert_eq!(program[target].k, 16, "socket branch must inspect args[0]");
        }
    }
}

#[test]
fn hardening_syscalls_return_eperm_in_all_socket_policies() {
    for program in [program(SocketPolicy::UnixOnly), program(SocketPolicy::UnixAndIp)] {
        for syscall in hardening() {
            assert_eq!(eval(&program, NATIVE, syscall, AF_UNIX), DENY_HARDENING);
        }
    }
    assert_eq!(DENY_HARDENING, 0x0005_0000 | libc::EPERM as u32);
}

#[test]
fn unix_only_policy_allows_only_af_unix() {
    let program = program(SocketPolicy::UnixOnly);
    let socket = libc::SYS_socket as u32;
    let socketpair = libc::SYS_socketpair as u32;
    assert_eq!(eval(&program, NATIVE, socket, AF_UNIX), SECCOMP_RET_ALLOW);
    assert_eq!(eval(&program, NATIVE, socketpair, AF_UNIX), SECCOMP_RET_ALLOW);
    for family in [
        libc::AF_UNSPEC as u32,
        AF_INET,
        AF_INET6,
        libc::AF_NETLINK as u32,
        libc::AF_VSOCK as u32,
        libc::AF_PACKET as u32,
    ] {
        assert_eq!(eval(&program, NATIVE, socket, family), DENY_FAMILY);
        assert_eq!(eval(&program, NATIVE, socketpair, family), DENY_FAMILY);
    }
    assert_eq!(DENY_FAMILY, 0x0005_0000 | 97);
}

#[test]
fn unix_and_ip_policy_allows_only_unix_and_ip() {
    let program = program(SocketPolicy::UnixAndIp);
    let socket = libc::SYS_socket as u32;
    let socketpair = libc::SYS_socketpair as u32;
    for family in [AF_UNIX, AF_INET, AF_INET6] {
        assert_eq!(eval(&program, NATIVE, socket, family), SECCOMP_RET_ALLOW);
        assert_eq!(eval(&program, NATIVE, socketpair, family), SECCOMP_RET_ALLOW);
    }
    for family in [
        libc::AF_UNSPEC as u32,
        libc::AF_NETLINK as u32,
        libc::AF_VSOCK as u32,
        libc::AF_PACKET as u32,
        38,
        44,
    ] {
        assert_eq!(eval(&program, NATIVE, socket, family), DENY_FAMILY);
        assert_eq!(eval(&program, NATIVE, socketpair, family), DENY_FAMILY);
    }
}

#[test]
fn x32_abi_is_killed_before_syscall_comparisons() {
    for program in [program(SocketPolicy::UnixOnly), program(SocketPolicy::UnixAndIp)] {
        assert_eq!(program[4].code, BPF_JSET_K);
        assert_eq!(program[4].k, X32_SYSCALL_BIT);
        assert_eq!(program[4].jt, 0);
        assert_eq!(program[4].jf, 1);
        assert_eq!(program[5].k, SECCOMP_RET_KILL_PROCESS);
        assert_eq!(
            eval(&program, NATIVE, libc::SYS_socket as u32 | X32_SYSCALL_BIT, AF_UNIX),
            SECCOMP_RET_KILL_PROCESS
        );
    }
}

#[test]
fn all_conditional_jump_offsets_stay_in_program() {
    for program in [program(SocketPolicy::UnixOnly), program(SocketPolicy::UnixAndIp)] {
        for syscall in hardening() {
            let (idx, instruction) = program
                .iter()
                .enumerate()
                .find(|(_, i)| i.code == BPF_JEQ_K && i.k == syscall)
                .expect("every hardening syscall must have a filter branch");
            let target = idx + 1 + instruction.jt as usize;
            assert_eq!(program[target].k, DENY_HARDENING);
        }
        for (idx, instruction) in program.iter().enumerate() {
            if instruction.code != BPF_JEQ_K && instruction.code != BPF_JSET_K {
                continue;
            }
            assert!(idx + 1 + (instruction.jt as usize) < program.len());
            assert!(idx + 1 + (instruction.jf as usize) < program.len());
        }
    }
}

#[test]
fn foreign_arch_is_fail_closed() {
    let program = program(SocketPolicy::UnixOnly);
    assert_eq!(program[2].k, SECCOMP_RET_KILL_PROCESS);
    assert_eq!(
        eval(&program, NATIVE ^ 1, libc::SYS_read as u32, AF_UNIX),
        SECCOMP_RET_KILL_PROCESS
    );
    assert_eq!(eval(&program, NATIVE, libc::SYS_read as u32, AF_INET), SECCOMP_RET_ALLOW);
}

#[test]
fn aarch64_audit_arch_is_little_endian() {
    assert_eq!(audit_arch_for("aarch64"), 0xC000_00B7);
}

#[test]
fn aarch64_audit_arch_is_native_little_endian() {
    assert_eq!(audit_arch_for("aarch64"), 0xC000_00B7);
}

#[test]
fn x86_64_audit_arch_is_native_little_endian() {
    assert_eq!(audit_arch_for("x86_64"), 0xC000_003E);
}

#[test]
fn arm_audit_arch_is_native_little_endian() {
    assert_eq!(audit_arch_for("arm"), 0x4000_0028);
}

#[test]
fn i386_audit_arch_is_native_little_endian() {
    assert_eq!(audit_arch_for("x86"), 0x4000_0003);
}

#[test]
fn riscv64_audit_arch_is_native_little_endian() {
    assert_eq!(audit_arch_for("riscv64"), 0xC000_00F3);
}

#[test]
fn unknown_arch_matches_no_syscall() {
    assert_eq!(audit_arch_for("mips"), 0);
}

#[test]
fn tap_filter_checks_native_arch_before_syscall_numbers() {
    let observed = table().observed_syscalls();
    let program = build_tap_program(NATIVE, &observed);
    assert_eq!(program.len(), observed.len() + 6);
    assert_eq!(observed.len(), 17);
    assert_eq!(program[0].code, BPF_LD_W_ABS);
    assert_eq!(program[0].k, 4);
    assert_eq!(program[1].k, NATIVE);
    assert_eq!(program[2].k, SECCOMP_RET_KILL_PROCESS);
    for syscall in &observed {
        assert_eq!(eval(&program, NATIVE, *syscall as u32, 0), SECCOMP_RET_USER_NOTIF);
    }
    assert_eq!(eval(&program, NATIVE, libc::SYS_read as u32, 0), SECCOMP_RET_ALLOW);
    assert_eq!(
        eval(&program, NATIVE ^ 1, libc::SYS_openat as u32, 0),
        SECCOMP_RET_KILL_PROCESS
    );
}

#[test]
fn filesystem_path_arguments_cover_requested_mutations() {
    let t = table();
    assert_eq!(t.path_arg_index(libc::SYS_open as i32), Some(0));
    assert_eq!(t.path_arg_index(libc::SYS_openat as i32), Some(1));
    assert_eq!(t.path_arg_index(libc::SYS_unlink as i32), Some(0));
    assert_eq!(t.path_arg_index(libc::SYS_unlinkat as i32), Some(1));
    assert_eq!(t.path_arg_index(libc::SYS_rename as i32), Some(0));
    assert_eq!(t.path_arg_index(libc::SYS_renameat as i32), Some(1));
    assert_eq!(t.path_arg_index(libc::SYS_renameat2 as i32), Some(1));
    assert_eq!(t.path_arg_index(libc::SYS_chmod as i32), Some(0));
    assert_eq!(t.path_arg_index(libc::SYS_fchmodat as i32), Some(1));
    assert_eq!(t.path_arg_index(libc::SYS_connect as i32), Some(1));
    assert_eq!(t.path_arg_index(libc::SYS_bind as i32), Some(1));
    assert_eq!(t.path_arg_index(libc::SYS_clone3 as i32), None);
}

#[test]
fn addfd_substitution_is_limited_to_open_family_results() {
    let t = table();
    assert!(t.addfd_allowed_syscall(libc::SYS_open as i32));
    assert!(t.addfd_allowed_syscall(libc::SYS_openat as i32));
    assert!(t.addfd_allowed_syscall(libc::SYS_openat2 as i32));
    assert!(!t.addfd_allowed_syscall(libc::SYS_execve as i32));
    assert!(!t.addfd_allowed_syscall(libc::SYS_unlink as i32));
    assert!(!t.addfd_allowed_syscall(libc::SYS_connect as i32));
}

#[test]
fn syscall_numbers_come_from_libc() {
    let s = syscalls();
    assert_eq!(s.socket, libc::SYS_socket as u32);
    assert_eq!(s.socketpair, libc::SYS_socketpair as u32);
    assert_eq!(s.hardening.len(), 28);
    assert!(s.hardening.contains(&(libc::SYS_ptrace as u32)));
    assert!(s.hardening.contains(&(libc::SYS_bpf as u32)));
    let p = build_program(NATIVE, &s, SocketPolicy::UnixOnly);
    assert_eq!(
        eval(&p, NATIVE, libc::SYS_ptrace as u32, 0),
        DENY_HARDENING
    );
}

#[test]
fn syscall_numbers_come_from_target_libc_table() {
    let t = table();
    assert_eq!(t.execve, libc::SYS_execve as i32);
    assert_eq!(t.openat, libc::SYS_openat as i32);
    assert!(!t.addfd_allowed_syscall(libc::SYS_execve as i32));
    assert!(!t.addfd_allowed_syscall(libc::SYS_unlink as i32));
    assert!(!t.addfd_allowed_syscall(libc::SYS_connect as i32));
    assert!(t.addfd_allowed_syscall(libc::SYS_open as i32));
    assert!(t.addfd_allowed_syscall(libc::SYS_openat as i32));
    assert!(t.addfd_allowed_syscall(libc::SYS_openat2 as i32));
    assert_eq!(t.path_arg_index(libc::SYS_execve as i32), Some(0));
    assert_eq!(t.path_arg_index(libc::SYS_openat as i32), Some(1));
    assert_eq!(t.path_arg_index(libc::SYS_getpid as i32), None);
}

#[test]
fn traced_paths_are_read_up_to_the_first_nul() {
    assert_eq!(c_string_path(b"/etc/passwd\0garbage"), Some("/etc/passwd".to_string()));
    assert_eq!(c_string_path(b"\0/etc"), None);
    assert_eq!(c_string_path(b"no-nul"), Some("no-nul".to_string()));
    let mut sa = vec![1u8, 0];
    sa.extend_from_slice(b"/run/docker.sock\0");
    assert_eq!(sockaddr_path(&sa, true), Some("/run/docker.sock".to_string()));
    let mut abs = vec![1u8, 0, 0];
    abs.extend_from_slice(b"dbus-abc\0rest");
    assert_eq!(sockaddr_path(&abs, true), Some("@dbus-abc".to_string()));
    assert_eq!(sockaddr_path(&[2u8, 0, 1, 2, 3, 4], true), None);
    assert_eq!(sockaddr_path(&[0u8, 1, b'/', b'x'], false), Some("/x".to_string()));
    assert_eq!(sockaddr_path(&[1u8, 0, 0, 0], true), None);
    assert_eq!(sockaddr_path(&[1u8], true), None);
}
