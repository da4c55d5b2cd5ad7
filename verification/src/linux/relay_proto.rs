//! The in-sandbox relay's client protocols: the HTTP `CONNECT` head, the
//! SOCKS5 greeting and target, the replies it sends back, and the framed
//! request and status byte it exchanges with the broker.
use vstd::prelude::*;
use crate::linux::debug_guard::{encode, hex_spec, DEBUG_AUTH_HEADER};
use crate::text::{
    append_chars, chars_eq, chars_of, decimal, decimal_chars, fields, find_chars, find_from,
    from_utf8_lossy, join_with, lower_chars, parse_u64, parse_unsigned, rfind_chars, rfind_spec,
    seqs_of, split_chars, split_on, split_whitespace, string_of, sub_chars, to_ascii_lowercase,
    trim, trim_ws, utf8_lossy,
};

verus! {

/// Longest `CONNECT` head the relay reads.
pub const MAX_CONNECT_HEAD: usize = 16384;

/// Longest framed request body sent to the broker.
pub const MAX_REQUEST_BODY: usize = 4096;

/// A line without the `\r` of a CRLF ending.
pub open spec fn strip_cr(l: Seq<char>) -> Seq<char> {
    if l.len() > 0 && l.last() == '\r' {
        l.drop_last()
    } else {
        l
    }
}

/// The lines of `s` as `str::lines` yields them: split after each `\n`,
/// with the `\n` (and a `\r` before it) removed; a last line without `\n`
/// is kept as it is, and omitted when empty.
pub open spec fn lines_spec(s: Seq<char>) -> Seq<Seq<char>> {
    let parts = split_on(s, '\n');
    let ended = parts.take(parts.len() - 1).map_values(|l: Seq<char>| strip_cr(l));
    if parts.last().len() == 0 {
        ended
    } else {
        ended.push(parts.last())
    }
}

/// The value of the first `X-Vetto-Debug-Token` header among `lines[i..]`
/// (name compared trimmed and without regard to ASCII case, value trimmed).
pub open spec fn token_from(lines: Seq<Seq<char>>, i: int) -> Option<Seq<char>>
    decreases lines.len() - i,
{
    if i < 0 || i >= lines.len() {
        None
    } else {
        match find_from(lines[i], ":"@, 0) {
            Some(k) => if lower_chars(trim_ws(lines[i].take(k))) == lower_chars(DEBUG_AUTH_HEADER@) {
                Some(trim_ws(lines[i].skip(k + 1)))
            } else {
                token_from(lines, i + 1)
            },
            None => token_from(lines, i + 1),
        }
    }
}

/// What a `CONNECT` head (all bytes up to and including the blank line)
/// asks for.
#[derive(Debug, Clone, PartialEq, Eq)]
pub enum ConnectHead {
    /// Another method: answered 501, the connection closed.
    NotConnect,
    /// Unreadable: the connection closed.
    Invalid,
    /// The target, in ASCII lower case, and the debug token header's value.
    Target { host: String, port: u16, token: Option<String> },
}

/// A parsed head as plain values: `None` for an unreadable head, `Some(None)`
/// for another method, else the target host, port and token.
pub open spec fn connect_head_view(h: ConnectHead) -> Option<Option<(Seq<char>, u16, Option<Seq<char>>)>> {
    match h {
        ConnectHead::Invalid => None,
        ConnectHead::NotConnect => Some(None),
        ConnectHead::Target { host, port, token } => Some(
            Some(
                (
                    host@,
                    port,
                    match token {
                        Some(t) => Some(t@),
                        None => None,
                    },
                ),
            ),
        ),
    }
}

/// The head's meaning: the request line's first field must be `CONNECT`
/// (any ASCII case); the second is `host:port`, split at the last colon,
/// the port a `u16`.
pub open spec fn connect_head_spec(text: Seq<char>) -> Option<Option<(Seq<char>, u16, Option<Seq<char>>)>> {
    let lines = lines_spec(text);
    if lines.len() == 0 {
        None
    } else {
        let parts = fields(lines[0]);
        if parts.len() == 0 {
            None
        } else if lower_chars(parts[0]) != "connect"@ {
            Some(None)
        } else if parts.len() < 2 {
            None
        } else {
            match rfind_spec(parts[1], ":"@) {
                None => None,
                Some(k) => match parse_unsigned(parts[1].skip(k + 1), u16::MAX as int) {
                    None => None,
                    Some(port) => Some(
                        Some((lower_chars(parts[1].take(k)), port as u16, token_from(lines, 1))),
                    ),
                },
            }
        }
    }
}

fn strip_cr_chars(l: &Vec<char>) -> (out: Vec<char>)
    ensures
        out@ == strip_cr(l@),
{
    if l.len() > 0 && l[l.len() - 1] == '\r' {
        let out = sub_chars(l.as_slice(), 0, l.len() - 1);
        assert(out@ =~= l@.drop_last());
        out
    } else {
        sub_chars(l.as_slice(), 0, l.len())
    }
}

fn lines_of(s: &[char]) -> (out: Vec<Vec<char>>)
    ensures
        seqs_of(out@) == lines_spec(s@),
{
    let parts = split_chars(s, '\n');
    let ghost ps = seqs_of(parts@);
    let mut out: Vec<Vec<char>> = Vec::new();
    let last = parts.len() - 1;
    let mut i: usize = 0;
    while i < last
        invariant
            i <= last,
            last == parts.len() - 1,
            ps == seqs_of(parts@),
            seqs_of(out@) == ps.take(i as int).map_values(|l: Seq<char>| strip_cr(l)),
        decreases last - i,
    {
        let ghost before = out@;
        let line = strip_cr_chars(&parts[i]);
        let ghost lv = line@;
        out.push(line);
        assert(seqs_of(out@) =~= seqs_of(before).push(lv));
        assert(ps[i as int] == parts@[i as int]@);
        assert(ps.take(i + 1).map_values(|l: Seq<char>| strip_cr(l)) =~= ps.take(i as int).map_values(
            |l: Seq<char>| strip_cr(l),
        ).push(strip_cr(ps[i as int])));
        i += 1;
    }
    assert(ps.take(ps.len() - 1) =~= ps.take(last as int));
    if parts[last].len() > 0 {
        let tail = sub_chars(parts[last].as_slice(), 0, parts[last].len());
        let ghost before = out@;
        let ghost tv = tail@;
        out.push(tail);
        assert(tv == ps.last());
        assert(seqs_of(out@) =~= seqs_of(before).push(ps.last()));
    }
    out
}

fn header_token(lines: &Vec<Vec<char>>) -> (r: Option<String>)
    ensures
        match r {
            Some(t) => token_from(seqs_of(lines@), 1) == Some(t@),
            None => token_from(seqs_of(lines@), 1) is None,
        },
{
    let ghost ls = seqs_of(lines@);
    let name = chars_of(DEBUG_AUTH_HEADER);
    let want = to_ascii_lowercase(name.as_slice());
    let colon = chars_of(":");
    proof {
        reveal_strlit(":");
    }
    let mut i: usize = 1;
    if lines.len() == 0 {
        return None;
    }
    while i < lines.len()
        invariant
            1 <= i <= lines.len(),
            ls == seqs_of(lines@),
            want@ == lower_chars(DEBUG_AUTH_HEADER@),
            colon@ == ":"@,
            token_from(ls, 1) == token_from(ls, i as int),
        decreases lines.len() - i,
    {
        let line = lines[i].as_slice();
        proof {
            reveal_strlit(":");
        }
        match find_chars(line, colon.as_slice(), 0) {
            Some(k) => {
                let key = sub_chars(line, 0, k);
                assert(key@ =~= ls[i as int].take(k as int));
                let kt = trim(key.as_slice());
                let kl = to_ascii_lowercase(kt.as_slice());
                if chars_eq(kl.as_slice(), want.as_slice()) {
                    let value = sub_chars(line, k + 1, line.len());
                    assert(value@ =~= ls[i as int].skip(k + 1));
                    let vt = trim(value.as_slice());
                    return Some(string_of(vt.as_slice()));
                }
            },
            None => {},
        }
        i += 1;
    }
    None
}

/// Reads a `CONNECT` head, from its raw bytes.
pub fn parse_connect_head(head: &[u8]) -> (r: ConnectHead)
    ensures
        connect_head_view(r) == connect_head_spec(utf8_lossy(head@)),
{
    let text = from_utf8_lossy(head);
    let cs = chars_of(text.as_str());
    let lines = lines_of(cs.as_slice());
    if lines.len() == 0 {
        return ConnectHead::Invalid;
    }
    let parts = split_whitespace(lines[0].as_slice());
    if parts.len() == 0 {
        return ConnectHead::Invalid;
    }
    let method = to_ascii_lowercase(parts[0].as_slice());
    let connect = chars_of("connect");
    if !chars_eq(method.as_slice(), connect.as_slice()) {
        return ConnectHead::NotConnect;
    }
    if parts.len() < 2 {
        return ConnectHead::Invalid;
    }
    let authority = parts[1].as_slice();
    let colon = chars_of(":");
    proof {
        reveal_strlit(":");
    }
    match rfind_chars(authority, colon.as_slice()) {
        None => ConnectHead::Invalid,
        Some(k) => {
            let port_text = sub_chars(authority, k + 1, authority.len());
            assert(port_text@ =~= parts@[1]@.skip(k + 1));
            match parse_u64(port_text.as_slice()) {
                None => ConnectHead::Invalid,
                Some(p) => {
                    proof {
                        let d = crate::text::unsigned_digits(port_text@);
                        if crate::text::all_digits(d) {
                            crate::text::lemma_digits_value_nonneg(d);
                        }
                    }
                    if p > 65535 {
                        assert(parse_unsigned(port_text@, u16::MAX as int) is None);
                        return ConnectHead::Invalid;
                    }
                    let host_text = sub_chars(authority, 0, k);
                    assert(host_text@ =~= parts@[1]@.take(k as int));
                    let host = to_ascii_lowercase(host_text.as_slice());
                    let token = header_token(&lines);
                    assert(parse_unsigned(port_text@, u16::MAX as int) == Some(p as int));
                    let r = ConnectHead::Target { host: string_of(host.as_slice()), port: p as u16, token };
                    assert(connect_head_view(r) == connect_head_spec(utf8_lossy(head@)));
                    r
                },
            }
        },
    }
}

/// Whether the bytes read so far hold a complete head (a blank line).
pub fn head_complete(buf: &[u8]) -> (r: bool)
    ensures
        r == crate::text::contains_run(buf@, seq![13u8, 10, 13, 10]),
{
    let blank = vec![13u8, 10, 13, 10];
    assert(blank@ =~= seq![13u8, 10, 13, 10]);
    crate::text::bytes_contains(buf, blank.as_slice())
}

/// How a SOCKS5 greeting (its method list) is answered: `None` closes the
/// connection at once (no method, or more than 32); otherwise the reply,
/// and whether the handshake goes on (only with "no authentication").
pub fn socks5_greeting(methods: &[u8]) -> (r: Option<([u8; 2], bool)>)
    ensures
        (methods@.len() == 0 || methods@.len() > 32) ==> r is None,
        !(methods@.len() == 0 || methods@.len() > 32) ==> (r matches Some((reply, go_on)) && go_on
            == methods@.contains(0u8) && reply@ == if go_on {
            seq![5u8, 0]
        } else {
            seq![5u8, 0xff]
        }),
{
    if methods.len() == 0 || methods.len() > 32 {
        return None;
    }
    let mut i: usize = 0;
    while i < methods.len()
        invariant
            i <= methods.len(),
            0 < methods.len() <= 32,
            forall|k: int| 0 <= k < i ==> methods@[k] != 0u8,
        decreases methods.len() - i,
    {
        if methods[i] == 0 {
            let reply = [5u8, 0];
            assert(reply@ =~= seq![5u8, 0]);
            return Some((reply, true));
        }
        i += 1;
    }
    let reply = [5u8, 0xff];
    assert(reply@ =~= seq![5u8, 0xff]);
    Some((reply, false))
}

/// The text of an IPv4 address.
pub open spec fn dotted_spec(o: Seq<u8>) -> Seq<char> {
    decimal(o[0] as nat) + "."@ + decimal(o[1] as nat) + "."@ + decimal(o[2] as nat) + "."@ + decimal(
        o[3] as nat,
    )
}

/// The eight 16-bit groups of an IPv6 address, each as four hex digits.
pub open spec fn v6_groups(o: Seq<u8>) -> Seq<Seq<char>> {
    Seq::new(8, |k: int| hex_spec(o.subrange(2 * k, 2 * k + 2)))
}

/// The SOCKS5 target host for address type `atyp` and its address bytes:
/// an IPv4 address as dotted decimal, a domain name as text, an IPv6
/// address in brackets as eight hex groups; in ASCII lower case. `None` for
/// another type.
pub open spec fn socks5_host_spec(atyp: u8, addr: Seq<u8>) -> Option<Seq<char>> {
    if atyp == 1 {
        Some(dotted_spec(addr))
    } else if atyp == 3 {
        Some(lower_chars(utf8_lossy(addr)))
    } else if atyp == 4 {
        Some("["@ + join_with(v6_groups(addr), ':') + "]"@)
    } else {
        None
    }
}

/// The SOCKS5 target host.
pub fn socks5_host(atyp: u8, addr: &[u8]) -> (r: Option<String>)
    requires
        atyp == 1 ==> addr@.len() == 4,
        atyp == 4 ==> addr@.len() == 16,
    ensures
        match r {
            Some(h) => socks5_host_spec(atyp, addr@) == Some(h@),
            None => socks5_host_spec(atyp, addr@) is None,
        },
{
    if atyp == 1 {
        let mut out = decimal_chars(addr[0] as u64);
        let mut k: usize = 1;
        let ghost want = dotted_spec(addr@);
        while k < 4
            invariant
                1 <= k <= 4,
                addr@.len() == 4,
                out@ == if k == 1 {
                    decimal(addr@[0] as nat)
                } else if k == 2 {
                    decimal(addr@[0] as nat) + "."@ + decimal(addr@[1] as nat)
                } else if k == 3 {
                    decimal(addr@[0] as nat) + "."@ + decimal(addr@[1] as nat) + "."@ + decimal(
                        addr@[2] as nat,
                    )
                } else {
                    want
                },
                want == dotted_spec(addr@),
            decreases 4 - k,
        {
            let dot = chars_of(".");
            append_chars(&mut out, dot.as_slice());
            let d = decimal_chars(addr[k] as u64);
            append_chars(&mut out, d.as_slice());
            k += 1;
        }
        Some(string_of(out.as_slice()))
    } else if atyp == 3 {
        let text = from_utf8_lossy(addr);
        let cs = chars_of(text.as_str());
        let low = to_ascii_lowercase(cs.as_slice());
        Some(string_of(low.as_slice()))
    } else if atyp == 4 {
        let mut groups: Vec<Vec<char>> = Vec::new();
        let mut k: usize = 0;
        while k < 8
            invariant
                k <= 8,
                addr@.len() == 16,
                seqs_of(groups@) == v6_groups(addr@).take(k as int),
            decreases 8 - k,
        {
            let pair = [addr[2 * k], addr[2 * k + 1]];
            assert(pair@ =~= addr@.subrange(2 * k, 2 * k + 2));
            let g = encode(&pair);
            let gc = chars_of(g.as_str());
            let ghost before = groups@;
            let ghost gv = gc@;
            groups.push(gc);
            assert(gv == v6_groups(addr@)[k as int]);
            assert(seqs_of(groups@) =~= seqs_of(before).push(gv));
            assert(v6_groups(addr@).take(k + 1) =~= v6_groups(addr@).take(k as int).push(gv));
            k += 1;
        }
        assert(v6_groups(addr@).take(8) =~= v6_groups(addr@));
        let joined = crate::text::join_chars(&groups, ':');
        let mut out = chars_of("[");
        append_chars(&mut out, joined.as_slice());
        let close = chars_of("]");
        append_chars(&mut out, close.as_slice());
        Some(string_of(out.as_slice()))
    } else {
        None
    }
}

/// How the broker answered a relay request.
#[derive(Debug, Clone, Copy, PartialEq, Eq, Structural)]
pub enum BrokerAnswer {
    /// Connected; the data descriptor follows.
    Connected,
    /// Refused by policy.
    Denied,
    /// Failed otherwise.
    Failed,
}

/// Reads the broker's status byte: `O` connected, `D` denied, anything else
/// a failure.
pub fn broker_answer(status: u8) -> (a: BrokerAnswer)
    ensures
        a == if status == 0x4f {
            BrokerAnswer::Connected
        } else if status == 0x44 {
            BrokerAnswer::Denied
        } else {
            BrokerAnswer::Failed
        },
{
    if status == 0x4f {
        BrokerAnswer::Connected
    } else if status == 0x44 {
        BrokerAnswer::Denied
    } else {
        BrokerAnswer::Failed
    }
}

/// What the relay tells its client: for SOCKS5 a reply with code 0
/// (success), 2 (not allowed) or 1 (failure); for HTTP the status line 200,
/// 403 or 502.
pub open spec fn client_reply_spec(socks: bool, a: BrokerAnswer) -> Seq<u8> {
    if socks {
        let code: u8 = match a {
            BrokerAnswer::Connected => 0,
            BrokerAnswer::Denied => 2,
            BrokerAnswer::Failed => 1,
        };
        seq![5u8, code, 0, 1, 0, 0, 0, 0, 0, 0]
    } else {
        match a {
            BrokerAnswer::Connected => "HTTP/1.1 200 Connection established\r\n\r\n"@.map_values(|c: char| c as u8),
            BrokerAnswer::Denied => "HTTP/1.1 403 Forbidden\r\n\r\n"@.map_values(|c: char| c as u8),
            BrokerAnswer::Failed => "HTTP/1.1 502 Bad Gateway\r\n\r\n"@.map_values(|c: char| c as u8),
        }
    }
}

fn ascii_bytes(s: &str) -> (b: Vec<u8>)
    requires
        forall|i: int| 0 <= i < s@.len() ==> (s@[i] as u32) < 128,
    ensures
        b@ == s@.map_values(|c: char| c as u8),
{
    let cs = chars_of(s);
    let mut b: Vec<u8> = Vec::new();
    let mut i: usize = 0;
    while i < cs.len()
        invariant
            i <= cs.len(),
            cs@ == s@,
            forall|k: int| 0 <= k < s@.len() ==> (s@[k] as u32) < 128,
            b@ == s@.take(i as int).map_values(|c: char| c as u8),
        decreases cs.len() - i,
    {
        b.push(cs[i] as u8);
        assert(b@ =~= s@.take(i + 1).map_values(|c: char| c as u8));
        i += 1;
    }
    assert(s@.take(cs.len() as int) =~= s@);
    b
}

/// The reply to the relay's client.
pub fn client_reply(socks: bool, a: BrokerAnswer) -> (r: Vec<u8>)
    ensures
        r@ == client_reply_spec(socks, a),
{
    if socks {
        let code: u8 = match a {
            BrokerAnswer::Connected => 0,
            BrokerAnswer::Denied => 2,
            BrokerAnswer::Failed => 1,
        };
        let r = vec![5u8, code, 0, 1, 0, 0, 0, 0, 0, 0];
        assert(r@ =~= client_reply_spec(socks, a));
        r
    } else {
        match a {
            BrokerAnswer::Connected => {
                proof {
                    reveal_strlit("HTTP/1.1 200 Connection established\r\n\r\n");
                }
                ascii_bytes("HTTP/1.1 200 Connection established\r\n\r\n")
            },
            BrokerAnswer::Denied => {
                proof {
                    reveal_strlit("HTTP/1.1 403 Forbidden\r\n\r\n");
                }
                ascii_bytes("HTTP/1.1 403 Forbidden\r\n\r\n")
            },
            BrokerAnswer::Failed => {
                proof {
                    reveal_strlit("HTTP/1.1 502 Bad Gateway\r\n\r\n");
                }
                ascii_bytes("HTTP/1.1 502 Bad Gateway\r\n\r\n")
            },
        }
    }
}

/// The answer to a request that is not `CONNECT`.
pub fn not_implemented_reply() -> (r: Vec<u8>)
    ensures
        r@ == "HTTP/1.1 501 Not Implemented\r\nConnection: close\r\n\r\n"@.map_values(|c: char| c as u8),
{
    proof {
        reveal_strlit("HTTP/1.1 501 Not Implemented\r\nConnection: close\r\n\r\n");
    }
    ascii_bytes("HTTP/1.1 501 Not Implemented\r\nConnection: close\r\n\r\n")
}

/// The frame of a request body sent to the broker: its length as two
/// little-endian bytes, then the body; `None` for a body over 4096 bytes.
pub fn request_frame(body: &[u8]) -> (r: Option<Vec<u8>>)
    ensures
        body@.len() > MAX_REQUEST_BODY ==> r is None,
        body@.len() <= MAX_REQUEST_BODY ==> (r matches Some(f) && f@ == seq![
            (body@.len() % 256) as u8,
            (body@.len() / 256) as u8,
        ] + body@),
{
    if body.len() > MAX_REQUEST_BODY {
        return None;
    }
    let n = body.len();
    let mut f: Vec<u8> = Vec::new();
    f.push((n % 256) as u8);
    f.push((n / 256) as u8);
    let mut i: usize = 0;
    while i < body.len()
        invariant
            i <= body.len(),
            n == body.len(),
            f@ == seq![(n % 256) as u8, (n / 256) as u8] + body@.take(i as int),
        decreases body.len() - i,
    {
        f.push(body[i]);
        assert(f@ =~= seq![(n % 256) as u8, (n / 256) as u8] + body@.take(i + 1));
        i += 1;
    }
    assert(body@.take(body.len() as int) =~= body@);
    Some(f)
}

/// A 16-bit value as two bytes in the given order.
pub open spec fn bytes16(v: u16, little_endian: bool) -> Seq<u8> {
    let lo = (v % 256) as u8;
    let hi = (v / 256) as u8;
    if little_endian {
        seq![lo, hi]
    } else {
        seq![hi, lo]
    }
}

/// A 32-bit value as four bytes in the given order.
pub open spec fn bytes32(v: u32, little_endian: bool) -> Seq<u8> {
    let b0 = (v % 256) as u8;
    let b1 = ((v / 256) % 256) as u8;
    let b2 = ((v / 65536) % 256) as u8;
    let b3 = (v / 16777216) as u8;
    if little_endian {
        seq![b0, b1, b2, b3]
    } else {
        seq![b3, b2, b1, b0]
    }
}

/// A netlink message header.
pub open spec fn nl_header(len: u32, kind: u16, flags: u16, seq: u32, little_endian: bool) -> Seq<u8> {
    bytes32(len, little_endian) + bytes16(kind, little_endian) + bytes16(flags, little_endian) + bytes32(
        seq,
        little_endian,
    ) + bytes32(0, little_endian)
}

/// `RTM_NEWADDR` giving the loopback interface (index 1) `127.0.0.1/8`
/// with host scope: request, ack, create, exclusive; sequence 1.
pub open spec fn loopback_address_spec(little_endian: bool) -> Seq<u8> {
    nl_header(32, 20, 0x605, 1, little_endian) + seq![2u8, 8, 0, 254] + bytes32(1, little_endian)
        + bytes16(8, little_endian) + bytes16(2, little_endian) + seq![127u8, 0, 0, 1]
}

/// `RTM_NEWLINK` setting `IFF_UP` on the loopback interface: request, ack;
/// sequence 2.
pub open spec fn loopback_link_spec(little_endian: bool) -> Seq<u8> {
    nl_header(32, 16, 5, 2, little_endian) + seq![0u8, 0] + bytes16(0, little_endian) + bytes32(
        1,
        little_endian,
    ) + bytes32(1, little_endian) + bytes32(1, little_endian)
}

fn push16(v: &mut Vec<u8>, x: u16, little_endian: bool)
    ensures
        final(v)@ == old(v)@ + bytes16(x, little_endian),
{
    let lo = (x % 256) as u8;
    let hi = (x / 256) as u8;
    if little_endian {
        v.push(lo);
        v.push(hi);
    } else {
        v.push(hi);
        v.push(lo);
    }
    assert(final(v)@ =~= old(v)@ + bytes16(x, little_endian));
}

fn push32(v: &mut Vec<u8>, x: u32, little_endian: bool)
    ensures
        final(v)@ == old(v)@ + bytes32(x, little_endian),
{
    let b0 = (x % 256) as u8;
    let b1 = ((x / 256) % 256) as u8;
    let b2 = ((x / 65536) % 256) as u8;
    let b3 = (x / 16777216) as u8;
    if little_endian {
        v.push(b0);
        v.push(b1);
        v.push(b2);
        v.push(b3);
    } else {
        v.push(b3);
        v.push(b2);
        v.push(b1);
        v.push(b0);
    }
    assert(final(v)@ =~= old(v)@ + bytes32(x, little_endian));
}

fn push_header(v: &mut Vec<u8>, len: u32, kind: u16, flags: u16, seq: u32, little_endian: bool)
    ensures
        final(v)@ == old(v)@ + nl_header(len, kind, flags, seq, little_endian),
{
    push32(v, len, little_endian);
    push16(v, kind, little_endian);
    push16(v, flags, little_endian);
    push32(v, seq, little_endian);
    push32(v, 0, little_endian);
    assert(final(v)@ =~= old(v)@ + nl_header(len, kind, flags, seq, little_endian));
}

/// The message that gives the loopback interface its address.
pub fn loopback_address_message(little_endian: bool) -> (m: Vec<u8>)
    ensures
        m@ == loopback_address_spec(little_endian),
{
    let mut m: Vec<u8> = Vec::new();
    push_header(&mut m, 32, 20, 0x605, 1, little_endian);
    m.push(2);
    m.push(8);
    m.push(0);
    m.push(254);
    push32(&mut m, 1, little_endian);
    push16(&mut m, 8, little_endian);
    push16(&mut m, 2, little_endian);
    m.push(127);
    m.push(0);
    m.push(0);
    m.push(1);
    assert(m@ =~= loopback_address_spec(little_endian));
    m
}

/// The message that brings the loopback interface up.
pub fn loopback_link_message(little_endian: bool) -> (m: Vec<u8>)
    ensures
        m@ == loopback_link_spec(little_endian),
{
    let mut m: Vec<u8> = Vec::new();
    push_header(&mut m, 32, 16, 5, 2, little_endian);
    m.push(0);
    m.push(0);
    push16(&mut m, 0, little_endian);
    push32(&mut m, 1, little_endian);
    push32(&mut m, 1, little_endian);
    push32(&mut m, 1, little_endian);
    assert(m@ =~= loopback_link_spec(little_endian));
    m
}

/// What one netlink reply says.
#[derive(Debug, Clone, Copy, PartialEq, Eq, Structural)]
pub enum NetlinkReply {
    /// Shorter than a header: the exchange failed.
    TooShort,
    /// An error message; acknowledged when its code is zero.
    Ack(bool),
    /// Another message: read the next reply.
    Other,
}

/// The 16-bit value stored at `b[i..i + 2]`.
pub open spec fn read16(b: Seq<u8>, i: int, little_endian: bool) -> int {
    if little_endian {
        b[i] + 256 * b[i + 1]
    } else {
        256 * b[i] + b[i + 1]
    }
}

/// Reads a reply of `n` bytes received into `resp` (the receive buffer,
/// whose bytes past `n` are whatever it held before): fewer than 16 bytes
/// fail; an `NLMSG_ERROR` message acknowledges when the four bytes after the
/// header are zero.
pub fn netlink_reply(resp: &[u8], n: usize, little_endian: bool) -> (r: NetlinkReply)
    requires
        resp@.len() >= 20,
    ensures
        r == if n < 16 {
            NetlinkReply::TooShort
        } else if read16(resp@, 4, little_endian) == 2 {
            NetlinkReply::Ack(resp@[16] == 0 && resp@[17] == 0 && resp@[18] == 0 && resp@[19] == 0)
        } else {
            NetlinkReply::Other
        },
{
    if n < 16 {
        return NetlinkReply::TooShort;
    }
    let kind: u32 = if little_endian {
        resp[4] as u32 + 256 * (resp[5] as u32)
    } else {
        256 * (resp[4] as u32) + resp[5] as u32
    };
    if kind == 2 {
        NetlinkReply::Ack(resp[16] == 0 && resp[17] == 0 && resp[18] == 0 && resp[19] == 0)
    } else {
        NetlinkReply::Other
    }
}

} // verus!
