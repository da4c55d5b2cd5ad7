use vetto::linux::ebpf_redirect::{
    build_v4_redirect_bytecode, build_v6_redirect_bytecode, BpfInsn, SocketDst, AF_INET6_FAMILY,
    AF_INET_FAMILY, BPF_ALU64, BPF_DW, BPF_EXIT, BPF_IMM, BPF_JEQ, BPF_JMP, BPF_K, BPF_LD, BPF_MOV,
    BPF_REG_0, BPF_REG_1,
};
use vetto::linux::net_relay::IpAddress;

#[test]
fn socket_dst_conversions() {
    let dst = SocketDst::from_v4([93, 184, 216, 34], 443);
    assert_eq!(dst.family, libc::AF_INET as u16);
    assert_eq!(dst.family, AF_INET_FAMILY);
    assert_eq!(dst.port, 443);
    assert_eq!(dst.to_socket_addr(), Some((IpAddress::V4([93, 184, 216, 34]), 443)));

    let v6: [u8; 16] = [
        0x26, 0x06, 0x28, 0x00, 0x02, 0x20, 0x00, 0x01, 0x02, 0x48, 0x18, 0x93, 0x25, 0xc8, 0x19,
        0x46,
    ];
    let dst_v6 = SocketDst::from_v6(v6, 8443);
    assert_eq!(dst_v6.family, libc::AF_INET6 as u16);
    assert_eq!(dst_v6.family, AF_INET6_FAMILY);
    assert_eq!(dst_v6.port, 8443);
    assert_eq!(dst_v6.to_socket_addr(), Some((IpAddress::V6(v6), 8443)));
}

#[test]
fn unknown_family_has_no_socket_address() {
    let mut dst = SocketDst::from_v4([10, 0, 0, 1], 80);
    dst.family = 1;
    assert_eq!(dst.to_socket_addr(), None);
}

#[test]
fn bpf_insn_constructors() {
    let insn = BpfInsn::mov64_imm(BPF_REG_0, 1);
    assert_eq!(insn.code, BPF_ALU64 | BPF_MOV | BPF_K);
    assert_eq!(insn.regs & 0x0f, BPF_REG_0);
    assert_eq!(insn.imm, 1);

    let map_insns = BpfInsn::ld_map_fd(BPF_REG_1, 42);
    assert_eq!(map_insns.len(), 2);
    assert_eq!(map_insns[0].code, BPF_LD | BPF_DW | BPF_IMM);
    assert_eq!(map_insns[0].imm, 42);
}

#[test]
fn registers_pack_source_high_and_destination_low() {
    let insn = BpfInsn::new(0x61, 3, 7, -4, 0);
    assert_eq!(insn.regs, 0x73);
    assert_eq!(insn.off, -4);
}

#[test]
fn v4_bytecode_generation() {
    let insns = build_v4_redirect_bytecode(5, 47129, true);
    assert!(!insns.is_empty());
    assert_eq!(insns.last().unwrap().code, BPF_JMP | BPF_EXIT);
    assert_eq!(insns.len(), 26);
}

#[test]
fn v6_bytecode_generation() {
    let insns = build_v6_redirect_bytecode(5, 47129, true);
    assert!(!insns.is_empty());
    assert_eq!(insns.last().unwrap().code, BPF_JMP | BPF_EXIT);
    assert_eq!(insns.len(), 29);
}

#[test]
fn v4_loopback_branch_reaches_the_final_allow() {
    let insns = build_v4_redirect_bytecode(5, 47129, true);
    let branch = insns[2];
    assert_eq!(branch.code, BPF_JMP | BPF_JEQ | BPF_K);
    assert_eq!(branch.imm, 0x0100007f);
    let target = 2 + 1 + branch.off as usize;
    assert_eq!(target, insns.len() - 2);
    assert_eq!(insns[target].code, BPF_ALU64 | BPF_MOV | BPF_K);
    assert_eq!(insns[target].imm, 1);
}
