//! eBPF socket redirection: instruction encoding, the connect-hook programs
//! that send outbound connections to the loopback relay, and the record of
//! each socket's original destination.
use vstd::prelude::*;
use crate::linux::net_relay::IpAddress;

verus! {

pub const BPF_MAP_CREATE: u32 = 0;
pub const BPF_MAP_LOOKUP_ELEM: u32 = 1;
pub const BPF_MAP_UPDATE_ELEM: u32 = 2;
pub const BPF_MAP_DELETE_ELEM: u32 = 3;
pub const BPF_PROG_LOAD: u32 = 5;
pub const BPF_PROG_ATTACH: u32 = 8;
pub const BPF_PROG_DETACH: u32 = 9;
pub const BPF_MAP_TYPE_LRU_HASH: u32 = 10;
pub const BPF_PROG_TYPE_CGROUP_SOCK_ADDR: u32 = 18;
pub const BPF_CGROUP_INET4_CONNECT: u32 = 10;
pub const BPF_CGROUP_INET6_CONNECT: u32 = 11;
pub const BPF_ANY: u64 = 0;
pub const BPF_NOEXIST: u64 = 1;
pub const BPF_EXIST: u64 = 2;
pub const BPF_F_ALLOW_OVERRIDE: u32 = 1;
pub const BPF_F_ALLOW_MULTI: u32 = 2;

pub const BPF_LD: u8 = 0x00;
pub const BPF_LDX: u8 = 0x01;
pub const BPF_ST: u8 = 0x02;
pub const BPF_STX: u8 = 0x03;
pub const BPF_ALU: u8 = 0x04;
pub const BPF_JMP: u8 = 0x05;
pub const BPF_ALU64: u8 = 0x07;

pub const BPF_W: u8 = 0x00;
pub const BPF_H: u8 = 0x08;
pub const BPF_B: u8 = 0x10;
pub const BPF_DW: u8 = 0x18;

pub const BPF_IMM: u8 = 0x00;
pub const BPF_ABS: u8 = 0x20;
pub const BPF_IND: u8 = 0x40;
pub const BPF_MEM: u8 = 0x60;

pub const BPF_ADD: u8 = 0x00;
pub const BPF_SUB: u8 = 0x10;
pub const BPF_MUL: u8 = 0x20;
pub const BPF_DIV: u8 = 0x30;
pub const BPF_OR: u8 = 0x40;
pub const BPF_AND: u8 = 0x50;
pub const BPF_LSH: u8 = 0x60;
pub const BPF_RSH: u8 = 0x70;
pub const BPF_NEG: u8 = 0x80;
pub const BPF_XOR: u8 = 0xa0;
pub const BPF_MOV: u8 = 0xb0;
pub const BPF_ARSH: u8 = 0xc0;

pub const BPF_JA: u8 = 0x00;
pub const BPF_JEQ: u8 = 0x10;
pub const BPF_JGT: u8 = 0x20;
pub const BPF_JGE: u8 = 0x30;
pub const BPF_JSET: u8 = 0x40;
pub const BPF_JNE: u8 = 0x50;
pub const BPF_CALL: u8 = 0x80;
pub const BPF_EXIT: u8 = 0x90;

pub const BPF_K: u8 = 0x00;
pub const BPF_X: u8 = 0x08;

pub const BPF_FUNC_MAP_LOOKUP_ELEM: i32 = 1;
pub const BPF_FUNC_MAP_UPDATE_ELEM: i32 = 2;
pub const BPF_FUNC_GET_SOCKET_COOKIE: i32 = 46;

pub const SOCK_ADDR_OFF_USER_FAMILY: i16 = 0;
pub const SOCK_ADDR_OFF_USER_IP4: i16 = 4;
pub const SOCK_ADDR_OFF_USER_IP6: i16 = 8;
pub const SOCK_ADDR_OFF_USER_PORT: i16 = 24;
pub const SOCK_ADDR_OFF_FAMILY: i16 = 28;
pub const SOCK_ADDR_OFF_TYPE: i16 = 32;
pub const SOCK_ADDR_OFF_PROTOCOL: i16 = 36;

pub const BPF_REG_0: u8 = 0;
pub const BPF_REG_1: u8 = 1;
pub const BPF_REG_2: u8 = 2;
pub const BPF_REG_3: u8 = 3;
pub const BPF_REG_4: u8 = 4;
pub const BPF_REG_5: u8 = 5;
pub const BPF_REG_6: u8 = 6;
pub const BPF_REG_7: u8 = 7;
pub const BPF_REG_8: u8 = 8;
pub const BPF_REG_9: u8 = 9;
pub const BPF_REG_10: u8 = 10;

/// `AF_INET`.
pub const AF_INET_FAMILY: u16 = 2;

/// `AF_INET6`.
pub const AF_INET6_FAMILY: u16 = 10;

/// One eBPF instruction (`struct bpf_insn`); `regs` packs the source
/// register in the high and the destination in the low nibble.
#[derive(Debug, Clone, Copy, PartialEq, Eq, Structural)]
pub struct BpfInsn {
    pub code: u8,
    pub regs: u8,
    pub off: i16,
    pub imm: i32,
}

/// The instruction with the given fields; registers are taken modulo 16.
pub open spec fn ebpf(code: u8, dst: u8, src: u8, off: i16, imm: i32) -> BpfInsn {
    BpfInsn { code, regs: ((src % 16) * 16 + dst % 16) as u8, off, imm }
}

impl BpfInsn {
    /// An instruction from its fields.
    pub fn new(code: u8, dst: u8, src: u8, off: i16, imm: i32) -> (i: Self)
        ensures
            i == ebpf(code, dst, src, off, imm),
    {
        BpfInsn { code, regs: (src % 16) * 16 + dst % 16, off, imm }
    }

    /// `dst = imm` (64-bit).
    pub fn mov64_imm(dst: u8, imm: i32) -> (i: Self)
        ensures
            i == ebpf(BPF_ALU64 | BPF_MOV | BPF_K, dst, 0, 0, imm),
    {
        Self::new(BPF_ALU64 | BPF_MOV | BPF_K, dst, 0, 0, imm)
    }

    /// `dst = src` (64-bit).
    pub fn mov64_reg(dst: u8, src: u8) -> (i: Self)
        ensures
            i == ebpf(BPF_ALU64 | BPF_MOV | BPF_X, dst, src, 0, 0),
    {
        Self::new(BPF_ALU64 | BPF_MOV | BPF_X, dst, src, 0, 0)
    }

    /// `dst = *(size *)(src + off)`.
    pub fn ldx_mem(size: u8, dst: u8, src: u8, off: i16) -> (i: Self)
        ensures
            i == ebpf(BPF_LDX | BPF_MEM | size, dst, src, off, 0),
    {
        Self::new(BPF_LDX | BPF_MEM | size, dst, src, off, 0)
    }

    /// `*(size *)(dst + off) = src`.
    pub fn stx_mem(size: u8, dst: u8, src: u8, off: i16) -> (i: Self)
        ensures
            i == ebpf(BPF_STX | BPF_MEM | size, dst, src, off, 0),
    {
        Self::new(BPF_STX | BPF_MEM | size, dst, src, off, 0)
    }

    /// `*(size *)(dst + off) = imm`.
    pub fn st_imm(size: u8, dst: u8, off: i16, imm: i32) -> (i: Self)
        ensures
            i == ebpf(BPF_ST | BPF_MEM | size, dst, 0, off, imm),
    {
        Self::new(BPF_ST | BPF_MEM | size, dst, 0, off, imm)
    }

    /// `dst op= imm` (64-bit).
    pub fn alu64_imm(op: u8, dst: u8, imm: i32) -> (i: Self)
        ensures
            i == ebpf(BPF_ALU64 | op | BPF_K, dst, 0, 0, imm),
    {
        Self::new(BPF_ALU64 | op | BPF_K, dst, 0, 0, imm)
    }

    /// `dst op= src` (64-bit).
    pub fn alu64_reg(op: u8, dst: u8, src: u8) -> (i: Self)
        ensures
            i == ebpf(BPF_ALU64 | op | BPF_X, dst, src, 0, 0),
    {
        Self::new(BPF_ALU64 | op | BPF_X, dst, src, 0, 0)
    }

    /// `if dst op imm goto +off`.
    pub fn jmp_imm(op: u8, dst: u8, imm: i32, off: i16) -> (i: Self)
        ensures
            i == ebpf(BPF_JMP | op | BPF_K, dst, 0, off, imm),
    {
        Self::new(BPF_JMP | op | BPF_K, dst, 0, off, imm)
    }

    /// `if dst op src goto +off`.
    pub fn jmp_reg(op: u8, dst: u8, src: u8, off: i16) -> (i: Self)
        ensures
            i == ebpf(BPF_JMP | op | BPF_X, dst, src, off, 0),
    {
        Self::new(BPF_JMP | op | BPF_X, dst, src, off, 0)
    }

    /// Call helper `func_id`.
    pub fn call(func_id: i32) -> (i: Self)
        ensures
            i == ebpf(BPF_JMP | BPF_CALL, 0, 0, 0, func_id),
    {
        Self::new(BPF_JMP | BPF_CALL, 0, 0, 0, func_id)
    }

    /// Return `r0`.
    pub fn exit() -> (i: Self)
        ensures
            i == ebpf(BPF_JMP | BPF_EXIT, 0, 0, 0, 0),
    {
        Self::new(BPF_JMP | BPF_EXIT, 0, 0, 0, 0)
    }

    /// The two-slot load of map descriptor `map_fd` into `dst`.
    pub fn ld_map_fd(dst: u8, map_fd: i32) -> (i: [Self; 2])
        ensures
            i@ == seq![ebpf(BPF_LD | BPF_DW | BPF_IMM, dst, 1, 0, map_fd), ebpf(0, 0, 0, 0, 0)],
    {
        let i = [Self::new(BPF_LD | BPF_DW | BPF_IMM, dst, 1, 0, map_fd), Self::new(0, 0, 0, 0, 0)];
        assert(i@ =~= seq![ebpf(BPF_LD | BPF_DW | BPF_IMM, dst, 1, 0, map_fd), ebpf(0, 0, 0, 0, 0)]);
        i
    }
}

/// The original destination of a redirected socket, as stored in the map.
#[derive(Debug, Clone, Copy, PartialEq, Eq)]
pub struct SocketDst {
    pub ip: [u8; 16],
    pub port: u16,
    pub family: u16,
    pub pad: u32,
}

impl Default for SocketDst {
    fn default() -> (d: Self)
        ensures
            forall|i: int| 0 <= i < 16 ==> d.ip@[i] == 0,
            d.port == 0,
            d.family == 0,
            d.pad == 0,
    {
        SocketDst { ip: [0u8; 16], port: 0, family: 0, pad: 0 }
    }
}

impl SocketDst {
    /// An IPv4 destination (address in the first four bytes).
    pub fn from_v4(octets: [u8; 4], port: u16) -> (d: Self)
        ensures
            d.ip@ == octets@ + seq![0u8, 0, 0, 0, 0, 0, 0, 0, 0, 0, 0, 0],
            d.port == port,
            d.family == AF_INET_FAMILY,
            d.pad == 0,
    {
        let ip = [
            octets[0],
            octets[1],
            octets[2],
            octets[3],
            0u8,
            0u8,
            0u8,
            0u8,
            0u8,
            0u8,
            0u8,
            0u8,
            0u8,
            0u8,
            0u8,
            0u8,
        ];
        assert(ip@ =~= octets@ + seq![0u8, 0, 0, 0, 0, 0, 0, 0, 0, 0, 0, 0]);
        SocketDst { ip, port, family: AF_INET_FAMILY, pad: 0 }
    }

    /// An IPv6 destination.
    pub fn from_v6(octets: [u8; 16], port: u16) -> (d: Self)
        ensures
            d.ip == octets,
            d.port == port,
            d.family == AF_INET6_FAMILY,
            d.pad == 0,
    {
        SocketDst { ip: octets, port, family: AF_INET6_FAMILY, pad: 0 }
    }

    /// The address and port, for the two families it can hold.
    pub fn to_socket_addr(&self) -> (r: Option<(IpAddress, u16)>)
        ensures
            self.family == AF_INET_FAMILY ==> (r matches Some((IpAddress::V4(o), p)) && p == self.port
                && o@ == self.ip@.take(4)),
            self.family == AF_INET6_FAMILY ==> r == Some((IpAddress::V6(self.ip), self.port)),
            self.family != AF_INET_FAMILY && self.family != AF_INET6_FAMILY ==> r is None,
    {
        if self.family == AF_INET_FAMILY {
            let o = [self.ip[0], self.ip[1], self.ip[2], self.ip[3]];
            assert(o@ =~= self.ip@.take(4));
            Some((IpAddress::V4(o), self.port))
        } else if self.family == AF_INET6_FAMILY {
            Some((IpAddress::V6(self.ip), self.port))
        } else {
            None
        }
    }
}


/// `127.0.0.1` as the 32-bit word the kernel's context holds, read in the
/// machine's byte order.
pub open spec fn loopback_v4_word(little_endian: bool) -> i32 {
    if little_endian {
        0x0100007f
    } else {
        0x7f000001
    }
}

/// The last 32 bits of `::1` read in the machine's byte order.
pub open spec fn loopback_v6_last_word(little_endian: bool) -> i32 {
    if little_endian {
        0x01000000
    } else {
        1
    }
}

/// A port in network byte order, read in the machine's byte order.
pub open spec fn port_word(port: u16, little_endian: bool) -> i32 {
    if little_endian {
        ((port % 256) * 256 + port / 256) as i32
    } else {
        port as i32
    }
}

fn port_to_word(port: u16, little_endian: bool) -> (w: i32)
    ensures
        w == port_word(port, little_endian),
{
    if little_endian {
        ((port % 256) as i32) * 256 + (port / 256) as i32
    } else {
        port as i32
    }
}

/// The stores that record the original destination, the cookie lookup and
/// the map update, shared by both programs: from the cookie call on.
pub open spec fn record_tail(map_fd: i32) -> Seq<BpfInsn> {
    seq![
        ebpf(BPF_ALU64 | BPF_MOV | BPF_X, BPF_REG_1, BPF_REG_6, 0, 0),
        ebpf(BPF_JMP | BPF_CALL, 0, 0, 0, BPF_FUNC_GET_SOCKET_COOKIE),
        ebpf(BPF_STX | BPF_MEM | BPF_DW, BPF_REG_10, BPF_REG_0, -40i16, 0),
        ebpf(BPF_LD | BPF_DW | BPF_IMM, BPF_REG_1, 1, 0, map_fd),
        ebpf(0, 0, 0, 0, 0),
        ebpf(BPF_ALU64 | BPF_MOV | BPF_X, BPF_REG_2, BPF_REG_10, 0, 0),
        ebpf(BPF_ALU64 | BPF_ADD | BPF_K, BPF_REG_2, 0, 0, -40i32),
        ebpf(BPF_ALU64 | BPF_MOV | BPF_X, BPF_REG_3, BPF_REG_10, 0, 0),
        ebpf(BPF_ALU64 | BPF_ADD | BPF_K, BPF_REG_3, 0, 0, -32i32),
        ebpf(BPF_ALU64 | BPF_MOV | BPF_K, BPF_REG_4, 0, 0, 0),
        ebpf(BPF_JMP | BPF_CALL, 0, 0, 0, BPF_FUNC_MAP_UPDATE_ELEM),
    ]
}

/// The IPv4 connect program: unless the destination is already
/// `127.0.0.1` (then the branch at index 2 goes straight to the final
/// "allow"), record the original address, port and family under the
/// socket cookie, then rewrite the destination to `127.0.0.1:relay_port`,
/// and allow.
pub open spec fn v4_program(map_fd: i32, relay_port: u16, little_endian: bool) -> Seq<BpfInsn> {
    seq![
        ebpf(BPF_ALU64 | BPF_MOV | BPF_X, BPF_REG_6, BPF_REG_1, 0, 0),
        ebpf(BPF_LDX | BPF_MEM | BPF_W, BPF_REG_7, BPF_REG_6, SOCK_ADDR_OFF_USER_IP4, 0),
        ebpf(BPF_JMP | BPF_JEQ | BPF_K, BPF_REG_7, 0, 21, loopback_v4_word(little_endian)),
        ebpf(BPF_ST | BPF_MEM | BPF_DW, BPF_REG_10, 0, -32i16, 0),
        ebpf(BPF_ST | BPF_MEM | BPF_DW, BPF_REG_10, 0, -24i16, 0),
        ebpf(BPF_ST | BPF_MEM | BPF_DW, BPF_REG_10, 0, -16i16, 0),
        ebpf(BPF_ST | BPF_MEM | BPF_DW, BPF_REG_10, 0, -8i16, 0),
        ebpf(BPF_STX | BPF_MEM | BPF_W, BPF_REG_10, BPF_REG_7, -32i16, 0),
        ebpf(BPF_LDX | BPF_MEM | BPF_W, BPF_REG_8, BPF_REG_6, SOCK_ADDR_OFF_USER_PORT, 0),
        ebpf(BPF_STX | BPF_MEM | BPF_H, BPF_REG_10, BPF_REG_8, -16i16, 0),
        ebpf(BPF_ST | BPF_MEM | BPF_H, BPF_REG_10, 0, -14i16, AF_INET_FAMILY as i32),
    ] + record_tail(map_fd) + seq![
        ebpf(BPF_ST | BPF_MEM | BPF_W, BPF_REG_6, 0, SOCK_ADDR_OFF_USER_IP4, loopback_v4_word(little_endian)),
        ebpf(BPF_ST | BPF_MEM | BPF_W, BPF_REG_6, 0, SOCK_ADDR_OFF_USER_PORT, port_word(relay_port, little_endian)),
        ebpf(BPF_ALU64 | BPF_MOV | BPF_K, BPF_REG_0, 0, 0, 1),
        ebpf(BPF_JMP | BPF_EXIT, 0, 0, 0, 0),
    ]
}

/// The IPv6 connect program: record the original address, port and family
/// under the socket cookie, rewrite the destination to `[::1]:relay_port`,
/// and allow.
pub open spec fn v6_program(map_fd: i32, relay_port: u16, little_endian: bool) -> Seq<BpfInsn> {
    seq![
        ebpf(BPF_ALU64 | BPF_MOV | BPF_X, BPF_REG_6, BPF_REG_1, 0, 0),
        ebpf(BPF_ST | BPF_MEM | BPF_DW, BPF_REG_10, 0, -32i16, 0),
        ebpf(BPF_ST | BPF_MEM | BPF_DW, BPF_REG_10, 0, -24i16, 0),
        ebpf(BPF_ST | BPF_MEM | BPF_DW, BPF_REG_10, 0, -16i16, 0),
        ebpf(BPF_ST | BPF_MEM | BPF_DW, BPF_REG_10, 0, -8i16, 0),
        ebpf(BPF_LDX | BPF_MEM | BPF_DW, BPF_REG_7, BPF_REG_6, SOCK_ADDR_OFF_USER_IP6, 0),
        ebpf(BPF_STX | BPF_MEM | BPF_DW, BPF_REG_10, BPF_REG_7, -32i16, 0),
        ebpf(BPF_LDX | BPF_MEM | BPF_DW, BPF_REG_7, BPF_REG_6, 16i16, 0),
        ebpf(BPF_STX | BPF_MEM | BPF_DW, BPF_REG_10, BPF_REG_7, -24i16, 0),
        ebpf(BPF_LDX | BPF_MEM | BPF_W, BPF_REG_8, BPF_REG_6, SOCK_ADDR_OFF_USER_PORT, 0),
        ebpf(BPF_STX | BPF_MEM | BPF_H, BPF_REG_10, BPF_REG_8, -16i16, 0),
        ebpf(BPF_ST | BPF_MEM | BPF_H, BPF_REG_10, 0, -14i16, AF_INET6_FAMILY as i32),
    ] + record_tail(map_fd) + seq![
        ebpf(BPF_ST | BPF_MEM | BPF_DW, BPF_REG_6, 0, SOCK_ADDR_OFF_USER_IP6, 0),
        ebpf(BPF_ST | BPF_MEM | BPF_W, BPF_REG_6, 0, 16i16, 0),
        ebpf(BPF_ST | BPF_MEM | BPF_W, BPF_REG_6, 0, 20i16, loopback_v6_last_word(little_endian)),
        ebpf(BPF_ST | BPF_MEM | BPF_W, BPF_REG_6, 0, SOCK_ADDR_OFF_USER_PORT, port_word(relay_port, little_endian)),
        ebpf(BPF_ALU64 | BPF_MOV | BPF_K, BPF_REG_0, 0, 0, 1),
        ebpf(BPF_JMP | BPF_EXIT, 0, 0, 0, 0),
    ]
}

/// Whether an instruction code is a branch inside the program: of the jump
/// class, and neither a helper call nor the exit.
pub open spec fn is_branch_code(code: u8) -> bool {
    code % 8 == BPF_JMP && code / 16 != BPF_CALL / 16 && code / 16 != BPF_EXIT / 16
}

/// Every branch of `p` lands on an instruction of `p`.
pub open spec fn jumps_in_program(p: Seq<BpfInsn>) -> bool {
    forall|i: int| 0 <= i < p.len() && is_branch_code(#[trigger] p[i].code) ==> 0 <= i + 1 + p[i].off < p.len()
}

proof fn lemma_code_values()
    ensures
        (BPF_ALU64 | BPF_MOV | BPF_X) == 0xbfu8,
        (BPF_LDX | BPF_MEM | BPF_W) == 0x61u8,
        (BPF_LDX | BPF_MEM | BPF_DW) == 0x79u8,
        (BPF_JMP | BPF_JEQ | BPF_K) == 0x15u8,
        (BPF_ST | BPF_MEM | BPF_DW) == 0x7au8,
        (BPF_ST | BPF_MEM | BPF_W) == 0x62u8,
        (BPF_ST | BPF_MEM | BPF_H) == 0x6au8,
        (BPF_STX | BPF_MEM | BPF_W) == 0x63u8,
        (BPF_STX | BPF_MEM | BPF_H) == 0x6bu8,
        (BPF_STX | BPF_MEM | BPF_DW) == 0x7bu8,
        (BPF_JMP | BPF_CALL) == 0x85u8,
        (BPF_JMP | BPF_EXIT) == 0x95u8,
        (BPF_LD | BPF_DW | BPF_IMM) == 0x18u8,
        (BPF_ALU64 | BPF_ADD | BPF_K) == 0x07u8,
        (BPF_ALU64 | BPF_MOV | BPF_K) == 0xb7u8,
{
    assert(
        (0x07u8 | 0xb0u8 | 0x08u8) == 0xbfu8 && (0x01u8 | 0x60u8 | 0x00u8) == 0x61u8
        && (0x01u8 | 0x60u8 | 0x18u8) == 0x79u8 && (0x05u8 | 0x10u8 | 0x00u8) == 0x15u8
        && (0x02u8 | 0x60u8 | 0x18u8) == 0x7au8 && (0x02u8 | 0x60u8 | 0x00u8) == 0x62u8
        && (0x02u8 | 0x60u8 | 0x08u8) == 0x6au8 && (0x03u8 | 0x60u8 | 0x00u8) == 0x63u8
        && (0x03u8 | 0x60u8 | 0x08u8) == 0x6bu8 && (0x03u8 | 0x60u8 | 0x18u8) == 0x7bu8
        && (0x05u8 | 0x80u8) == 0x85u8 && (0x05u8 | 0x90u8) == 0x95u8
        && (0x00u8 | 0x18u8 | 0x00u8) == 0x18u8 && (0x07u8 | 0x00u8 | 0x00u8) == 0x07u8
        && (0x07u8 | 0xb0u8 | 0x00u8) == 0xb7u8
    ) by (bit_vector);
}

proof fn lemma_v4_jumps(map_fd: i32, relay_port: u16, little_endian: bool)
    ensures
        jumps_in_program(v4_program(map_fd, relay_port, little_endian)),
{
    lemma_code_values();
    let p = v4_program(map_fd, relay_port, little_endian);
    assert(p.len() == 26);
    assert forall|i: int| 0 <= i < p.len() && is_branch_code(#[trigger] p[i].code) implies 0 <= i + 1 + p[i].off < p.len() by {
        if i == 0 {
            } else if i == 1 {
            } else if i == 2 {
            } else if i == 3 {
            } else if i == 4 {
            } else if i == 5 {
            } else if i == 6 {
            } else if i == 7 {
            } else if i == 8 {
            } else if i == 9 {
            } else if i == 10 {
            } else if i == 11 {
            } else if i == 12 {
            } else if i == 13 {
            } else if i == 14 {
            } else if i == 15 {
            } else if i == 16 {
            } else if i == 17 {
            } else if i == 18 {
            } else if i == 19 {
            } else if i == 20 {
            } else if i == 21 {
            } else if i == 22 {
            } else if i == 23 {
            } else if i == 24 {
            } else if i == 25 {
            }
    }
}

proof fn lemma_v6_jumps(map_fd: i32, relay_port: u16, little_endian: bool)
    ensures
        jumps_in_program(v6_program(map_fd, relay_port, little_endian)),
{
    lemma_code_values();
    let p = v6_program(map_fd, relay_port, little_endian);
    assert(p.len() == 29);
    assert forall|i: int| 0 <= i < p.len() && is_branch_code(#[trigger] p[i].code) implies 0 <= i + 1 + p[i].off < p.len() by {
        if i == 0 {
            } else if i == 1 {
            } else if i == 2 {
            } else if i == 3 {
            } else if i == 4 {
            } else if i == 5 {
            } else if i == 6 {
            } else if i == 7 {
            } else if i == 8 {
            } else if i == 9 {
            } else if i == 10 {
            } else if i == 11 {
            } else if i == 12 {
            } else if i == 13 {
            } else if i == 14 {
            } else if i == 15 {
            } else if i == 16 {
            } else if i == 17 {
            } else if i == 18 {
            } else if i == 19 {
            } else if i == 20 {
            } else if i == 21 {
            } else if i == 22 {
            } else if i == 23 {
            } else if i == 24 {
            } else if i == 25 {
            } else if i == 26 {
            } else if i == 27 {
            } else if i == 28 {
            }
    }
}

fn push_record_tail(insns: &mut Vec<BpfInsn>, map_fd: i32)
    ensures
        final(insns)@ == old(insns)@ + record_tail(map_fd),
{
    insns.push(BpfInsn::mov64_reg(BPF_REG_1, BPF_REG_6));
    insns.push(BpfInsn::call(BPF_FUNC_GET_SOCKET_COOKIE));
    insns.push(BpfInsn::stx_mem(BPF_DW, BPF_REG_10, BPF_REG_0, -40));
    let map_insns = BpfInsn::ld_map_fd(BPF_REG_1, map_fd);
    insns.push(map_insns[0]);
    insns.push(map_insns[1]);
    insns.push(BpfInsn::mov64_reg(BPF_REG_2, BPF_REG_10));
    insns.push(BpfInsn::alu64_imm(BPF_ADD, BPF_REG_2, -40));
    insns.push(BpfInsn::mov64_reg(BPF_REG_3, BPF_REG_10));
    insns.push(BpfInsn::alu64_imm(BPF_ADD, BPF_REG_3, -32));
    insns.push(BpfInsn::mov64_imm(BPF_REG_4, BPF_ANY as i32));
    insns.push(BpfInsn::call(BPF_FUNC_MAP_UPDATE_ELEM));
    assert(final(insns)@ =~= old(insns)@ + record_tail(map_fd));
}

/// Builds the IPv4 redirect program for map `map_fd` and relay port
/// `relay_port`, for a machine of the given byte order.
pub fn build_v4_redirect_bytecode(map_fd: i32, relay_port: u16, little_endian: bool) -> (insns: Vec<BpfInsn>)
    ensures
        insns@ == v4_program(map_fd, relay_port, little_endian),
        insns@.len() == 26,
        insns@.last() == ebpf(BPF_JMP | BPF_EXIT, 0, 0, 0, 0),
        jumps_in_program(insns@),
        insns@[24] == ebpf(BPF_ALU64 | BPF_MOV | BPF_K, BPF_REG_0, 0, 0, 1),
        2 + 1 + insns@[2].off == 24,
{
    proof {
        lemma_v4_jumps(map_fd, relay_port, little_endian);
    }
    let lo: i32 = if little_endian {
        0x0100007f
    } else {
        0x7f000001
    };
    let mut insns: Vec<BpfInsn> = Vec::new();
    insns.push(BpfInsn::mov64_reg(BPF_REG_6, BPF_REG_1));
    insns.push(BpfInsn::ldx_mem(BPF_W, BPF_REG_7, BPF_REG_6, SOCK_ADDR_OFF_USER_IP4));
    insns.push(BpfInsn::jmp_imm(BPF_JEQ, BPF_REG_7, lo, 21));
    insns.push(BpfInsn::st_imm(BPF_DW, BPF_REG_10, -32, 0));
    insns.push(BpfInsn::st_imm(BPF_DW, BPF_REG_10, -24, 0));
    insns.push(BpfInsn::st_imm(BPF_DW, BPF_REG_10, -16, 0));
    insns.push(BpfInsn::st_imm(BPF_DW, BPF_REG_10, -8, 0));
    insns.push(BpfInsn::stx_mem(BPF_W, BPF_REG_10, BPF_REG_7, -32));
    insns.push(BpfInsn::ldx_mem(BPF_W, BPF_REG_8, BPF_REG_6, SOCK_ADDR_OFF_USER_PORT));
    insns.push(BpfInsn::stx_mem(BPF_H, BPF_REG_10, BPF_REG_8, -16));
    insns.push(BpfInsn::st_imm(BPF_H, BPF_REG_10, -14, AF_INET_FAMILY as i32));
    push_record_tail(&mut insns, map_fd);
    insns.push(BpfInsn::st_imm(BPF_W, BPF_REG_6, SOCK_ADDR_OFF_USER_IP4, lo));
    insns.push(BpfInsn::st_imm(BPF_W, BPF_REG_6, SOCK_ADDR_OFF_USER_PORT, port_to_word(relay_port, little_endian)));
    insns.push(BpfInsn::mov64_imm(BPF_REG_0, 1));
    insns.push(BpfInsn::exit());
    assert(insns@ =~= v4_program(map_fd, relay_port, little_endian));
    insns
}

/// Builds the IPv6 redirect program for map `map_fd` and relay port
/// `relay_port`, for a machine of the given byte order.
pub fn build_v6_redirect_bytecode(map_fd: i32, relay_port: u16, little_endian: bool) -> (insns: Vec<BpfInsn>)
    ensures
        insns@ == v6_program(map_fd, relay_port, little_endian),
        insns@.len() == 29,
        insns@.last() == ebpf(BPF_JMP | BPF_EXIT, 0, 0, 0, 0),
        jumps_in_program(insns@),
{
    proof {
        lemma_v6_jumps(map_fd, relay_port, little_endian);
    }
    let last: i32 = if little_endian {
        0x01000000
    } else {
        1
    };
    let mut insns: Vec<BpfInsn> = Vec::new();
    insns.push(BpfInsn::mov64_reg(BPF_REG_6, BPF_REG_1));
    insns.push(BpfInsn::st_imm(BPF_DW, BPF_REG_10, -32, 0));
    insns.push(BpfInsn::st_imm(BPF_DW, BPF_REG_10, -24, 0));
    insns.push(BpfInsn::st_imm(BPF_DW, BPF_REG_10, -16, 0));
    insns.push(BpfInsn::st_imm(BPF_DW, BPF_REG_10, -8, 0));
    insns.push(BpfInsn::ldx_mem(BPF_DW, BPF_REG_7, BPF_REG_6, SOCK_ADDR_OFF_USER_IP6));
    insns.push(BpfInsn::stx_mem(BPF_DW, BPF_REG_10, BPF_REG_7, -32));
    insns.push(BpfInsn::ldx_mem(BPF_DW, BPF_REG_7, BPF_REG_6, SOCK_ADDR_OFF_USER_IP6 + 8));
    insns.push(BpfInsn::stx_mem(BPF_DW, BPF_REG_10, BPF_REG_7, -24));
    insns.push(BpfInsn::ldx_mem(BPF_W, BPF_REG_8, BPF_REG_6, SOCK_ADDR_OFF_USER_PORT));
    insns.push(BpfInsn::stx_mem(BPF_H, BPF_REG_10, BPF_REG_8, -16));
    insns.push(BpfInsn::st_imm(BPF_H, BPF_REG_10, -14, AF_INET6_FAMILY as i32));
    push_record_tail(&mut insns, map_fd);
    insns.push(BpfInsn::st_imm(BPF_DW, BPF_REG_6, SOCK_ADDR_OFF_USER_IP6, 0));
    insns.push(BpfInsn::st_imm(BPF_W, BPF_REG_6, SOCK_ADDR_OFF_USER_IP6 + 8, 0));
    insns.push(BpfInsn::st_imm(BPF_W, BPF_REG_6, SOCK_ADDR_OFF_USER_IP6 + 12, last));
    insns.push(BpfInsn::st_imm(BPF_W, BPF_REG_6, SOCK_ADDR_OFF_USER_PORT, port_to_word(relay_port, little_endian)));
    insns.push(BpfInsn::mov64_imm(BPF_REG_0, 1));
    insns.push(BpfInsn::exit());
    assert(insns@ =~= v6_program(map_fd, relay_port, little_endian));
    insns
}

} // verus!
