//! Policy side of the network relay broker: host normalization, allowlist
//! and strict-rule matching, forbidden destination address space, TLS SNI
//! extraction, and the proxy environment handed to the agent.
use vstd::prelude::*;
use vstd::utf8::encode_utf8;
use crate::text::{
    all_digits, append_chars, chars_eq, chars_of, chars_starts_with, chars_ends_with, contains_piece,
    ends_with, find_chars, find_from, is_digit, lower_chars, seqs_of, split_chars, split_on,
    starts_with, string_of, sub_chars, to_ascii_lowercase, trim, trim_end_char, trim_end_matches,
    trim_start_char, trim_start_matches, trim_ws, from_utf8_lossy, utf8_lossy, decimal, decimal_chars,
    parse_unsigned, opt_chars,
};

verus! {

/// First loopback port used by the relay.
pub const RELAY_PORT_BASE: u16 = 47129;

/// How agent traffic reaches the relay.
#[derive(Debug, Clone, Copy, PartialEq, Eq, Structural)]
pub enum RelayMode {
    NetNs,
    Ebpf,
}

/// A strict-mode rule: a host pattern and the one port it opens.
#[derive(Debug, PartialEq, Eq)]
pub struct NetRule {
    pub domain: String,
    pub port: u16,
}

/// A host as the broker compares it: trimmed, without trailing dots, ASCII
/// lower case.
pub open spec fn host_key(s: Seq<char>) -> Seq<char> {
    lower_chars(trim_end_char(trim_ws(s), '.'))
}

fn host_key_of(s: &str) -> (out: Vec<char>)
    ensures
        out@ == host_key(s@),
{
    let cs = chars_of(s);
    let t = trim(cs.as_slice());
    let u = trim_end_matches(t.as_slice(), '.');
    to_ascii_lowercase(u.as_slice())
}

/// The last position of `c` in `s`.
pub open spec fn rfind_char(s: Seq<char>, c: char) -> Option<int>
    decreases s.len(),
{
    if s.len() == 0 {
        None
    } else if s.last() == c {
        Some(s.len() - 1)
    } else {
        rfind_char(s.drop_last(), c)
    }
}

/// The host part of `s`: an IPv6 literal without brackets, a host without a
/// numeric `:port` suffix, or the trimmed text itself.
pub open spec fn strip_port_spec(s: Seq<char>) -> Seq<char> {
    let t = trim_end_char(trim_ws(s), '.');
    if t.len() > 0 && t[0] == '[' {
        let rest = t.drop_first();
        match find_from(rest, seq![']'], 0) {
            Some(e) => rest.take(e),
            None => t,
        }
    } else {
        match rfind_char(t, ':') {
            Some(k) => {
                let host = t.take(k);
                let port = t.skip(k + 1);
                if port.len() > 0 && all_digits(port) && !host.contains(':') {
                    host
                } else {
                    t
                }
            },
            None => t,
        }
    }
}

fn rfind(s: &[char], c: char) -> (r: Option<usize>)
    ensures
        match r {
            Some(k) => rfind_char(s@, c) == Some(k as int),
            None => rfind_char(s@, c) is None,
        },
{
    let mut j: usize = s.len();
    assert(s@.take(s.len() as int) =~= s@);
    while j > 0
        invariant
            j <= s.len(),
            rfind_char(s@, c) == rfind_char(s@.take(j as int), c),
        decreases j,
    {
        if s[j - 1] == c {
            return Some(j - 1);
        }
        assert(s@.take(j as int).drop_last() =~= s@.take(j - 1));
        j -= 1;
    }
    None
}

fn all_ascii_digits(s: &[char]) -> (r: bool)
    ensures
        r == all_digits(s@),
{
    let mut i: usize = 0;
    while i < s.len()
        invariant
            i <= s.len(),
            forall|k: int| 0 <= k < i ==> is_digit(#[trigger] s@[k]),
        decreases s.len() - i,
    {
        if !('0' <= s[i] && s[i] <= '9') {
            return false;
        }
        i += 1;
    }
    true
}

fn strip_port_chars(s: &str) -> (out: Vec<char>)
    ensures
        out@ == strip_port_spec(s@),
{
    let cs = chars_of(s);
    let t0 = trim(cs.as_slice());
    let t = trim_end_matches(t0.as_slice(), '.');
    if t.len() > 0 && t[0] == '[' {
        let rest = sub_chars(t.as_slice(), 1, t.len());
        assert(rest@ =~= t@.drop_first());
        let close = [']'];
        assert(close@ == seq![']']);
        match find_chars(rest.as_slice(), close.as_slice(), 0) {
            Some(e) => {
                let host = sub_chars(rest.as_slice(), 0, e);
                assert(host@ =~= rest@.take(e as int));
                host
            },
            None => t,
        }
    } else {
        match rfind(t.as_slice(), ':') {
            Some(k) => {
                proof {
                    lemma_rfind_bounds(t@, ':');
                }
                let host = sub_chars(t.as_slice(), 0, k);
                let port = sub_chars(t.as_slice(), k + 1, t.len());
                assert(host@ =~= t@.take(k as int));
                assert(port@ =~= t@.skip(k + 1));
                if port.len() > 0 && all_ascii_digits(port.as_slice()) && !crate::text::chars_contain(
                    host.as_slice(),
                    ':',
                ) {
                    host
                } else {
                    t
                }
            },
            None => t,
        }
    }
}

proof fn lemma_rfind_bounds(s: Seq<char>, c: char)
    ensures
        rfind_char(s, c) matches Some(k) ==> 0 <= k < s.len() && s[k] == c,
    decreases s.len(),
{
    if s.len() > 0 && s.last() != c {
        lemma_rfind_bounds(s.drop_last(), c);
    }
}

/// The host part of `s` (see `strip_port_spec`).
pub fn strip_domain_port(s: &str) -> (out: String)
    ensures
        out@ == strip_port_spec(s@),
{
    let cs = strip_port_chars(s);
    string_of(cs.as_slice())
}

/// Whether allowlist pattern `pat` (normalized) admits `host` (normalized):
/// `*` admits everything, `*.d` the subdomains of `d` only, and `d` itself
/// and its subdomains.
pub open spec fn pattern_allows(host: Seq<char>, pat: Seq<char>) -> bool {
    if pat == seq!['*'] {
        true
    } else if starts_with(pat, seq!['*', '.']) {
        ends_with(host, seq!['.'] + pat.skip(2))
    } else {
        host == pat || ends_with(host, seq!['.'] + pat)
    }
}

/// An allowlist pattern `*` admits every host, `*.d` admits every `x.d`,
/// and a plain `d` admits `d` itself and every `x.d`.
pub proof fn lemma_pattern_admits(host: Seq<char>, x: Seq<char>, d: Seq<char>)
    ensures
        pattern_allows(host, seq!['*']),
        pattern_allows(x + seq!['.'] + d, seq!['*', '.'] + d),
        d.len() > 0 && d[0] != '*' ==> pattern_allows(d, d) && pattern_allows(x + seq!['.'] + d, d),
{
    let h = x + seq!['.'] + d;
    let p = seq!['*', '.'] + d;
    assert(p.take(2) =~= seq!['*', '.']);
    assert(p.skip(2) =~= d);
    assert(p != seq!['*']) by {
        assert(p.len() != 1);
    }
    assert(h.skip(h.len() - (seq!['.'] + d).len()) =~= seq!['.'] + d);
    if d.len() > 0 && d[0] != '*' {
        assert(!starts_with(d, seq!['*', '.'])) by {
            if starts_with(d, seq!['*', '.']) {
                assert(d.take(2)[0] == d[0]);
            }
        }
        assert(d != seq!['*']) by {
            if d == seq!['*'] {
                assert(d[0] == '*');
            }
        }
    }
}

/// Whether `host` is on the allowlist `list`.
pub open spec fn domain_allowed_spec(host: Seq<char>, list: Seq<Seq<char>>) -> bool {
    exists|i: int|
        0 <= i < list.len() && pattern_allows(
            lower_chars(strip_port_spec(host)),
            lower_chars(strip_port_spec(#[trigger] list[i])),
        )
}

fn dot_then(s: &[char]) -> (out: Vec<char>)
    ensures
        out@ == seq!['.'] + s@,
{
    let mut out: Vec<char> = Vec::new();
    out.push('.');
    append_chars(&mut out, s);
    assert(seq!['.'] + s@ =~= seq!['.'].add(s@));
    out
}

fn pattern_allows_exec(host: &[char], pat: &[char]) -> (r: bool)
    ensures
        r == pattern_allows(host@, pat@),
{
    let star = ['*'];
    let star_dot = ['*', '.'];
    assert(star@ == seq!['*']);
    assert(star_dot@ == seq!['*', '.']);
    if chars_eq(pat, star.as_slice()) {
        true
    } else if chars_starts_with(pat, star_dot.as_slice()) {
        let suffix = sub_chars(pat, 2, pat.len());
        assert(suffix@ =~= pat@.skip(2));
        let dotted = dot_then(suffix.as_slice());
        chars_ends_with(host, dotted.as_slice())
    } else {
        let dotted = dot_then(pat);
        chars_eq(host, pat) || chars_ends_with(host, dotted.as_slice())
    }
}

/// The views of a slice of strings.
pub open spec fn strings_view(v: Seq<String>) -> Seq<Seq<char>> {
    v.map_values(|s: String| s@)
}

/// Allowlist semantics: exact host, `*.domain` for subdomains only, or a
/// parent domain; `:port` suffixes and IPv6 brackets are ignored on both
/// sides.
pub fn domain_allowed(host: &str, allowlist: &[String]) -> (r: bool)
    ensures
        r == domain_allowed_spec(host@, strings_view(allowlist@)),
{
    let h0 = strip_port_chars(host);
    let h = to_ascii_lowercase(h0.as_slice());
    let mut i: usize = 0;
    while i < allowlist.len()
        invariant
            i <= allowlist.len(),
            h@ == lower_chars(strip_port_spec(host@)),
            forall|k: int|
                0 <= k < i ==> !pattern_allows(
                    h@,
                    lower_chars(strip_port_spec(#[trigger] strings_view(allowlist@)[k])),
                ),
        decreases allowlist.len() - i,
    {
        let p0 = strip_port_chars(allowlist[i].as_str());
        let p = to_ascii_lowercase(p0.as_slice());
        assert(strings_view(allowlist@)[i as int] == allowlist[i as int]@);
        if pattern_allows_exec(h.as_slice(), p.as_slice()) {
            return true;
        }
        i += 1;
    }
    false
}

/// Whether strict rule `(pat, rule_port)` admits `host` (normalized) on `port`:
/// the port must be equal, and a bare `*` or empty pattern admits nothing.
pub open spec fn rule_allows(host: Seq<char>, port: u16, pat: Seq<char>, rule_port: u16) -> bool {
    rule_port == port && pat != seq!['*'] && pat.len() > 0 && if starts_with(pat, seq!['*', '.']) {
        ends_with(host, seq!['.'] + pat.skip(2))
    } else {
        host == pat || ends_with(host, seq!['.'] + pat)
    }
}

/// Whether strict mode admits `host` on `port` under `rules`.
pub open spec fn strict_allowed_spec(host: Seq<char>, port: u16, rules: Seq<NetRule>) -> bool {
    exists|i: int|
        0 <= i < rules.len() && rule_allows(
            host_key(host),
            port,
            host_key(#[trigger] rules[i].domain@),
            rules[i].port,
        )
}

/// A rule `*.d` on port `p` admits every host `x.d` on `p`, and a rule `d`
/// admits `d` itself and every `x.d` on its port (hosts and rules compared
/// normalized).
pub proof fn lemma_strict_rule_admits_subdomains(
    host: Seq<char>,
    port: u16,
    rules: Seq<NetRule>,
    i: int,
    x: Seq<char>,
    d: Seq<char>,
)
    requires
        0 <= i < rules.len(),
        rules[i].port == port,
    ensures
        host_key(rules[i].domain@) == seq!['*', '.'] + d && host_key(host) == x + seq!['.'] + d
            ==> strict_allowed_spec(host, port, rules),
        d.len() > 0 && d[0] != '*' && host_key(rules[i].domain@) == d && (host_key(host) == d
            || host_key(host) == x + seq!['.'] + d) ==> strict_allowed_spec(host, port, rules),
{
    let pat = host_key(rules[i].domain@);
    let h = host_key(host);
    if pat == seq!['*', '.'] + d && h == x + seq!['.'] + d {
        assert(starts_with(pat, seq!['*', '.'])) by {
            assert(pat.take(2) =~= seq!['*', '.']);
        }
        assert(pat.skip(2) =~= d);
        assert(pat != seq!['*']) by {
            assert(pat.len() != 1);
        }
        assert(h.skip(h.len() - (seq!['.'] + d).len()) =~= seq!['.'] + d);
        assert(rule_allows(h, port, pat, rules[i].port));
    }
    if d.len() > 0 && d[0] != '*' && pat == d && (h == d || h == x + seq!['.'] + d) {
        assert(!starts_with(pat, seq!['*', '.'])) by {
            if starts_with(pat, seq!['*', '.']) {
                assert(pat.take(2)[0] == pat[0]);
            }
        }
        assert(pat != seq!['*']) by {
            if pat == seq!['*'] {
                assert(pat[0] == '*');
            }
        }
        if h != d {
            assert(h.skip(h.len() - (seq!['.'] + d).len()) =~= seq!['.'] + d);
        }
        assert(rule_allows(h, port, pat, rules[i].port));
    }
}

/// Strict mode: the rule's port must equal the requested one and the host
/// must be the rule's exact host, or a subdomain of it (only subdomains for
/// `*.domain`); `*` never matches.
pub fn strict_allowed(host: &str, port: u16, rules: &[NetRule]) -> (r: bool)
    ensures
        r == strict_allowed_spec(host@, port, rules@),
{
    let h = host_key_of(host);
    let mut i: usize = 0;
    while i < rules.len()
        invariant
            i <= rules.len(),
            h@ == host_key(host@),
            forall|k: int|
                0 <= k < i ==> !rule_allows(
                    h@,
                    port,
                    host_key(#[trigger] rules@[k].domain@),
                    rules@[k].port,
                ),
        decreases rules.len() - i,
    {
        let rule = &rules[i];
        if rule.port == port {
            let p = host_key_of(rule.domain.as_str());
            let star = ['*'];
            assert(star@ == seq!['*']);
            if !chars_eq(p.as_slice(), star.as_slice()) && p.len() > 0 {
                if pattern_allows_exec(h.as_slice(), p.as_slice()) {
                    return true;
                }
            }
        }
        i += 1;
    }
    false
}

/// Whether `host` names the loopback interface.
pub open spec fn loopback_host_spec(host: Seq<char>) -> bool {
    let h = host_key(host);
    h == seq!['1', '2', '7', '.', '0', '.', '0', '.', '1'] || h == seq!['l', 'o', 'c', 'a', 'l', 'h', 'o', 's', 't']
        || h == seq![':', ':', '1'] || h == seq!['[', ':', ':', '1', ']']
}

/// Whether `host` names the loopback interface (`127.0.0.1`, `localhost`,
/// `::1` or `[::1]`, in any ASCII case, with trailing dots).
pub fn is_loopback_host(host: &str) -> (r: bool)
    ensures
        r == loopback_host_spec(host@),
{
    let h = host_key_of(host);
    let a = ['1', '2', '7', '.', '0', '.', '0', '.', '1'];
    let b = ['l', 'o', 'c', 'a', 'l', 'h', 'o', 's', 't'];
    let c = [':', ':', '1'];
    let d = ['[', ':', ':', '1', ']'];
    assert(a@ == seq!['1', '2', '7', '.', '0', '.', '0', '.', '1']);
    assert(b@ == seq!['l', 'o', 'c', 'a', 'l', 'h', 'o', 's', 't']);
    assert(c@ == seq![':', ':', '1']);
    assert(d@ == seq!['[', ':', ':', '1', ']']);
    chars_eq(h.as_slice(), a.as_slice()) || chars_eq(h.as_slice(), b.as_slice()) || chars_eq(
        h.as_slice(),
        c.as_slice(),
    ) || chars_eq(h.as_slice(), d.as_slice())
}

/// The base64 alphabet letter for a 6-bit value.
pub open spec fn b64_char(v: int) -> char {
    if v < 26 {
        (65 + v) as u8 as char
    } else if v < 52 {
        (97 + v - 26) as u8 as char
    } else if v < 62 {
        (48 + v - 52) as u8 as char
    } else if v == 62 {
        '+'
    } else {
        '/'
    }
}

/// Standard base64 (with `=` padding) of `b`.
pub open spec fn base64_spec(b: Seq<u8>) -> Seq<char>
    decreases b.len(),
{
    if b.len() == 0 {
        Seq::empty()
    } else {
        let b0 = b[0] as int;
        let b1 = if b.len() > 1 {
            b[1] as int
        } else {
            0
        };
        let b2 = if b.len() > 2 {
            b[2] as int
        } else {
            0
        };
        let group = seq![
            b64_char(b0 / 4),
            b64_char((b0 % 4) * 16 + b1 / 16),
            if b.len() > 1 {
                b64_char((b1 % 16) * 4 + b2 / 64)
            } else {
                '='
            },
            if b.len() > 2 {
                b64_char(b2 % 64)
            } else {
                '='
            },
        ];
        if b.len() <= 3 {
            group
        } else {
            group + base64_spec(b.skip(3))
        }
    }
}

fn b64_letter(v: u8) -> (c: char)
    requires
        v < 64,
    ensures
        c == b64_char(v as int),
{
    if v < 26 {
        (65 + v) as char
    } else if v < 52 {
        (97 + v - 26) as char
    } else if v < 62 {
        (48 + v - 52) as char
    } else if v == 62 {
        '+'
    } else {
        '/'
    }
}

/// Base64 of the UTF-8 bytes of `input` (for proxy basic authentication).
pub fn encode_base64(input: &str) -> (out: String)
    ensures
        out@ == base64_spec(encode_utf8(input@)),
{
    let bytes = input.as_bytes();
    let ghost b = bytes@;
    let n = bytes.len();
    let mut out: Vec<char> = Vec::new();
    let mut i: usize = 0;
    assert(b.skip(0) =~= b);
    while i < n
        invariant
            n == b.len(),
            b == bytes@,
            i <= n,
            out@ + base64_spec(b.skip(i as int)) == base64_spec(b),
        decreases n - i,
    {
        let b0 = bytes[i];
        let b1: u8 = if n - i > 1 {
            bytes[i + 1]
        } else {
            0
        };
        let b2: u8 = if n - i > 2 {
            bytes[i + 2]
        } else {
            0
        };
        let ghost rest = b.skip(i as int);
        let c0 = b64_letter(b0 / 4);
        let c1 = b64_letter((b0 % 4) * 16 + b1 / 16);
        let c2 = if n - i > 1 {
            b64_letter((b1 % 16) * 4 + b2 / 64)
        } else {
            '='
        };
        let c3 = if n - i > 2 {
            b64_letter(b2 % 64)
        } else {
            '='
        };
        let ghost old_out = out@;
        out.push(c0);
        out.push(c1);
        out.push(c2);
        out.push(c3);
        let next: usize = if n - i <= 3 {
            n
        } else {
            i + 3
        };
        proof {
            assert(rest[0] == b0);
            assert(rest.len() > 1 ==> rest[1] == b1);
            assert(rest.len() > 2 ==> rest[2] == b2);
            if rest.len() > 3 {
                assert(rest.skip(3) =~= b.skip(next as int));
            } else {
                assert(b.skip(next as int) =~= Seq::<u8>::empty());
                assert(base64_spec(rest) =~= seq![c0, c1, c2, c3] + Seq::<char>::empty());
            }
            assert(base64_spec(rest) == seq![c0, c1, c2, c3] + base64_spec(b.skip(next as int)));
            assert(out@ =~= old_out + seq![c0, c1, c2, c3]);
            assert(old_out + base64_spec(rest) =~= out@ + base64_spec(b.skip(next as int)));
        }
        i = next;
    }
    assert(b.skip(n as int) =~= Seq::<u8>::empty());
    assert(out@ + Seq::<char>::empty() =~= out@);
    string_of(out.as_slice())
}

/// An IP address by its octets.
#[derive(Debug, Clone, Copy, PartialEq, Eq)]
pub enum IpAddress {
    V4([u8; 4]),
    V6([u8; 16]),
}

/// Whether an IPv4 address lies in private, loopback, link-local, shared,
/// benchmarking, documentation, reserved, multicast, broadcast or cloud
/// metadata space.
pub open spec fn ipv4_forbidden(a: u8, b: u8, c: u8, d: u8) -> bool {
    let private = a == 10 || (a == 172 && 16 <= b <= 31) || (a == 192 && b == 168);
    let link_local = a == 169 && b == 254;
    let loopback = a == 127;
    let shared = a == 100 && 64 <= b <= 127;
    let benchmarking = a == 198 && 18 <= b <= 19;
    let protocol_assignment = a == 192 && b == 0 && c == 0;
    let documentation = (a == 192 && b == 0 && c == 2) || (a == 198 && b == 51 && c == 100) || (a
        == 203 && b == 0 && c == 113);
    let deprecated_6to4_anycast = a == 192 && b == 88 && c == 99;
    let multicast_or_reserved = a >= 224;
    let unspecified = a == 0;
    let broadcast = a == 255 && b == 255 && c == 255 && d == 255;
    let cloud_metadata = (a == 169 && b == 254 && c == 169 && d == 254) || (a == 100 && b == 100 && c
        == 100 && d == 200);
    private || link_local || loopback || shared || benchmarking || protocol_assignment
        || documentation || deprecated_6to4_anycast || multicast_or_reserved || unspecified
        || broadcast || cloud_metadata
}

/// The address as a 32-bit number.
pub open spec fn v4_number(a: u8, b: u8, c: u8, d: u8) -> int {
    a * 0x0100_0000int + b * 0x0001_0000int + c * 256int + d
}

/// Whether `n` lies in the block of `size` addresses from `base`.
pub open spec fn in_block(n: int, base: int, size: int) -> bool {
    base <= n < base + size
}

/// Every address of the private (10.0.0.0/8, 172.16.0.0/12,
/// 192.168.0.0/16), loopback (127.0.0.0/8), link-local (169.254.0.0/16),
/// shared (100.64.0.0/10), "this network" (0.0.0.0/8) and multicast or
/// reserved (224.0.0.0/3) blocks is forbidden.
pub proof fn lemma_non_public_blocks_forbidden(a: u8, b: u8, c: u8, d: u8)
    ensures
        ({
            let n = v4_number(a, b, c, d);
            (in_block(n, 0x0a00_0000int, 0x0100_0000int) || in_block(n, 0xac10_0000int, 0x0010_0000int)
                || in_block(n, 0xc0a8_0000int, 0x0001_0000int) || in_block(n, 0x7f00_0000int, 0x0100_0000int)
                || in_block(n, 0xa9fe_0000int, 0x0001_0000int) || in_block(
                n,
                0x6440_0000int,
                0x0040_0000int,
            ) || in_block(n, 0int, 0x0100_0000int) || in_block(n, 0xe000_0000int, 0x2000_0000int))
                ==> ipv4_forbidden(a, b, c, d)
        }),
{
    let n = v4_number(a, b, c, d);
    assert(0 <= b * 65536 + c * 256 + d < 16777216) by (nonlinear_arith)
        requires
            b < 256,
            c < 256,
            d < 256,
    ;
    assert(0 <= c * 256 + d < 65536) by (nonlinear_arith)
        requires
            c < 256,
            d < 256,
    ;
}

/// Whether the IPv4 address `o` is not a public egress target.
pub fn forbidden_ipv4(o: [u8; 4]) -> (r: bool)
    ensures
        r == ipv4_forbidden(o@[0], o@[1], o@[2], o@[3]),
        in_block(v4_number(o@[0], o@[1], o@[2], o@[3]), 0xac10_0000int, 0x0010_0000int) ==> r,
        in_block(v4_number(o@[0], o@[1], o@[2], o@[3]), 0x0a00_0000int, 0x0100_0000int) ==> r,
        in_block(v4_number(o@[0], o@[1], o@[2], o@[3]), 0xc0a8_0000int, 0x0001_0000int) ==> r,
{
    proof {
        lemma_non_public_blocks_forbidden(o@[0], o@[1], o@[2], o@[3]);
    }
    let a = o[0];
    let b = o[1];
    let c = o[2];
    let d = o[3];
    let private = a == 10 || (a == 172 && 16 <= b && b <= 31) || (a == 192 && b == 168);
    let link_local = a == 169 && b == 254;
    let loopback = a == 127;
    let shared = a == 100 && 64 <= b && b <= 127;
    let benchmarking = a == 198 && 18 <= b && b <= 19;
    let protocol_assignment = a == 192 && b == 0 && c == 0;
    let documentation = (a == 192 && b == 0 && c == 2) || (a == 198 && b == 51 && c == 100) || (a
        == 203 && b == 0 && c == 113);
    let deprecated_6to4_anycast = a == 192 && b == 88 && c == 99;
    let multicast_or_reserved = a >= 224;
    let unspecified = a == 0;
    let broadcast = a == 255 && b == 255 && c == 255 && d == 255;
    let cloud_metadata = (a == 169 && b == 254 && c == 169 && d == 254) || (a == 100 && b == 100 && c
        == 100 && d == 200);
    private || link_local || loopback || shared || benchmarking || protocol_assignment
        || documentation || deprecated_6to4_anycast || multicast_or_reserved || unspecified
        || broadcast || cloud_metadata
}

/// The IPv4 address embedded (RFC 6052) under `64:ff9b::/96` or
/// `64:ff9b:1::/48`.
pub open spec fn nat64_spec(o: Seq<u8>) -> Option<Seq<u8>> {
    if o[0] == 0 && o[1] == 0x64 && o[2] == 0xff && o[3] == 0x9b && o[4] == 0 && o[5] == 0 && o[6]
        == 0 && o[7] == 0 && o[8] == 0 && o[9] == 0 && o[10] == 0 && o[11] == 0 {
        Some(seq![o[12], o[13], o[14], o[15]])
    } else if o[0] == 0 && o[1] == 0x64 && o[2] == 0xff && o[3] == 0x9b && o[4] == 0 && o[5] == 1 {
        Some(seq![o[6], o[7], o[9], o[10]])
    } else {
        None
    }
}

/// The IPv4 address that a NAT64 IPv6 address embeds, if any.
pub fn nat64_embedded_ipv4(o: [u8; 16]) -> (r: Option<[u8; 4]>)
    ensures
        match r {
            Some(v) => nat64_spec(o@) == Some(v@),
            None => nat64_spec(o@) is None,
        },
{
    if o[0] == 0 && o[1] == 0x64 && o[2] == 0xff && o[3] == 0x9b && o[4] == 0 && o[5] == 0 && o[6]
        == 0 && o[7] == 0 && o[8] == 0 && o[9] == 0 && o[10] == 0 && o[11] == 0 {
        let v = [o[12], o[13], o[14], o[15]];
        assert(v@ =~= seq![o@[12], o@[13], o@[14], o@[15]]);
        Some(v)
    } else if o[0] == 0 && o[1] == 0x64 && o[2] == 0xff && o[3] == 0x9b && o[4] == 0 && o[5] == 1 {
        let v = [o[6], o[7], o[9], o[10]];
        assert(v@ =~= seq![o@[6], o@[7], o@[9], o@[10]]);
        Some(v)
    } else {
        None
    }
}

/// Whether an IPv6 address is not a public egress target: unspecified,
/// loopback, link-local, unique-local, site-local, multicast, documentation,
/// reserved special-use, 6to4, or an IPv4-mapped or NAT64 address that
/// embeds a forbidden IPv4 address.
pub open spec fn ipv6_forbidden(o: Seq<u8>) -> bool {
    let is_unspecified = forall|i: int| 0 <= i < 16 ==> o[i] == 0;
    let is_loopback = (forall|i: int| 0 <= i < 15 ==> o[i] == 0) && o[15] == 1;
    let is_link_local = o[0] == 0xfe && (o[1] & 0xc0) == 0x80;
    let is_unique_local = (o[0] & 0xfe) == 0xfc;
    let is_site_local = o[0] == 0xfe && (o[1] & 0xc0) == 0xc0;
    let is_multicast = o[0] == 0xff;
    let is_documentation = (o[0] == 0x20 && o[1] == 0x01 && o[2] == 0x0d && o[3] == 0xb8) || (o[0]
        == 0x3f && o[1] == 0xff && (o[2] & 0xf0) == 0);
    let is_reserved_special_use = (o[0] == 0x20 && o[1] == 0x01 && o[2] == 0 && (o[3] == 0 || o[3]
        == 2)) || (o[0] == 0x20 && o[1] == 0x02);
    let is_v4_mapped = (forall|i: int| 0 <= i < 10 ==> o[i] == 0) && o[10] == 0xff && o[11] == 0xff;
    let mapped_forbidden = is_v4_mapped && ipv4_forbidden(o[12], o[13], o[14], o[15]);
    let nat64_forbidden = match nat64_spec(o) {
        Some(v) => ipv4_forbidden(v[0], v[1], v[2], v[3]),
        None => false,
    };
    is_unspecified || is_loopback || is_link_local || is_unique_local || is_site_local
        || is_multicast || is_documentation || is_reserved_special_use || mapped_forbidden
        || nat64_forbidden
}

fn zero_until(o: &[u8; 16], n: usize) -> (r: bool)
    requires
        n <= 16,
    ensures
        r == forall|i: int| 0 <= i < n ==> o@[i] == 0,
{
    let mut i: usize = 0;
    while i < n
        invariant
            i <= n <= 16,
            forall|k: int| 0 <= k < i ==> o@[k] == 0,
        decreases n - i,
    {
        if o[i] != 0 {
            return false;
        }
        i += 1;
    }
    true
}

/// Whether the IPv6 address `o` is not a public egress target.
pub fn forbidden_ipv6(o: [u8; 16]) -> (r: bool)
    ensures
        r == ipv6_forbidden(o@),
{
    let is_unspecified = zero_until(&o, 16);
    let is_loopback = zero_until(&o, 15) && o[15] == 1;
    let is_link_local = o[0] == 0xfe && (o[1] & 0xc0) == 0x80;
    let is_unique_local = (o[0] & 0xfe) == 0xfc;
    let is_site_local = o[0] == 0xfe && (o[1] & 0xc0) == 0xc0;
    let is_multicast = o[0] == 0xff;
    let is_documentation = (o[0] == 0x20 && o[1] == 0x01 && o[2] == 0x0d && o[3] == 0xb8) || (o[0]
        == 0x3f && o[1] == 0xff && (o[2] & 0xf0) == 0);
    let is_reserved_special_use = (o[0] == 0x20 && o[1] == 0x01 && o[2] == 0 && (o[3] == 0 || o[3]
        == 2)) || (o[0] == 0x20 && o[1] == 0x02);
    let is_v4_mapped = zero_until(&o, 10) && o[10] == 0xff && o[11] == 0xff;
    let mapped_forbidden = is_v4_mapped && forbidden_ipv4([o[12], o[13], o[14], o[15]]);
    let nat64_forbidden = match nat64_embedded_ipv4(o) {
        Some(v) => forbidden_ipv4(v),
        None => false,
    };
    is_unspecified || is_loopback || is_link_local || is_unique_local || is_site_local
        || is_multicast || is_documentation || is_reserved_special_use || mapped_forbidden
        || nat64_forbidden
}

/// Whether `ip` identifies local, private, link-local, multicast or otherwise
/// non-public address space (checked on every resolved answer).
pub fn forbidden_destination(ip: IpAddress) -> (r: bool)
    ensures
        r == match ip {
            IpAddress::V4(o) => ipv4_forbidden(o@[0], o@[1], o@[2], o@[3]),
            IpAddress::V6(o) => ipv6_forbidden(o@),
        },
{
    match ip {
        IpAddress::V4(o) => forbidden_ipv4(o),
        IpAddress::V6(o) => forbidden_ipv6(o),
    }
}

/// Big-endian 16-bit value at `i`.
pub open spec fn be16(b: Seq<u8>, i: int) -> int {
    b[i] * 256 + b[i + 1]
}

/// Big-endian 24-bit value at `i`.
pub open spec fn be24(b: Seq<u8>, i: int) -> int {
    b[i] * 65536 + b[i + 1] * 256 + b[i + 2]
}

/// Inputs on which the record-header checks index past the buffer.
pub open spec fn sni_input_short(buf: Seq<u8>) -> bool {
    &&& buf.len() >= 5
    &&& buf[0] == 0x16
    &&& buf.len() >= 5 + be16(buf, 3)
    &&& (buf.len() < 6 || (buf[5] == 0x01 && buf.len() < 9))
}

/// What a ClientHello prefix says about the server name.
pub enum SniParse {
    /// Not a TLS handshake, or inconsistent lengths.
    Malformed,
    /// More bytes are needed.
    Incomplete,
    /// A complete hello without a host name.
    NoName,
    /// The first host name (raw bytes).
    Name(Seq<u8>),
}

/// The host name entries from `s` to `end` of a server-name extension.
pub open spec fn sni_names(b: Seq<u8>, s: int, end: int) -> Option<Seq<u8>>
    decreases end - s,
{
    if s < 0 || s + 3 > end {
        None
    } else {
        let ty = b[s];
        let nl = be16(b, s + 1);
        let s2 = s + 3;
        if ty == 0 && s2 + nl <= end {
            Some(b.subrange(s2, s2 + nl))
        } else if s2 + nl > end {
            None
        } else {
            sni_names(b, s2 + nl, end)
        }
    }
}

/// The extensions from `pos` to `end`.
pub open spec fn sni_extensions(b: Seq<u8>, pos: int, end: int) -> SniParse
    decreases end - pos,
{
    if pos < 0 || pos + 4 > end {
        SniParse::NoName
    } else {
        let t = be16(b, pos);
        let l = be16(b, pos + 2);
        let p = pos + 4;
        if t == 0 && p + l > end {
            SniParse::Malformed
        } else if t == 0 && l < 2 {
            SniParse::Malformed
        } else if t == 0 && sni_names(b, p + 2, p + l) is Some {
            SniParse::Name(sni_names(b, p + 2, p + l)->Some_0)
        } else if p + l > end {
            SniParse::NoName
        } else {
            sni_extensions(b, p + l, end)
        }
    }
}

/// The body of a ClientHello from the session id length at `pos` on.
pub open spec fn sni_hello(b: Seq<u8>, pos: int) -> SniParse {
    if pos >= b.len() {
        SniParse::Malformed
    } else {
        let pos1 = pos + 1 + b[pos];
        if pos1 + 2 > b.len() {
            SniParse::Malformed
        } else {
            let pos2 = pos1 + 2 + be16(b, pos1);
            if pos2 >= b.len() {
                SniParse::Malformed
            } else {
                let pos3 = pos2 + 1 + b[pos2];
                if pos3 + 2 > b.len() {
                    SniParse::NoName
                } else {
                    let ext_end = pos3 + 2 + be16(b, pos3);
                    if ext_end > b.len() {
                        SniParse::Malformed
                    } else {
                        sni_extensions(b, pos3 + 2, ext_end)
                    }
                }
            }
        }
    }
}

/// What the buffered bytes of a TLS connection say about its server name.
pub open spec fn sni_parse(b: Seq<u8>) -> SniParse {
    if b.len() == 0 {
        SniParse::Incomplete
    } else if b[0] != 0x16 {
        SniParse::Malformed
    } else if b.len() < 5 {
        SniParse::Incomplete
    } else if b.len() < 5 + be16(b, 3) {
        SniParse::Incomplete
    } else if b[5] != 0x01 {
        SniParse::Malformed
    } else if be16(b, 3) < 4 + be24(b, 6) {
        SniParse::Malformed
    } else {
        sni_hello(b, 43)
    }
}

fn rd16(b: &[u8], i: usize) -> (r: usize)
    requires
        i + 2 <= b.len(),
    ensures
        r == be16(b@, i as int),
{
    b[i] as usize * 256 + b[i + 1] as usize
}

fn sni_names_exec(b: &[u8], start: usize, end: usize) -> (r: Option<(usize, usize)>)
    requires
        end <= b.len(),
        start <= b.len(),
        b.len() <= isize::MAX as usize,
    ensures
        match r {
            Some((s, e)) => s <= e <= b.len() && sni_names(b@, start as int, end as int) == Some(
                b@.subrange(s as int, e as int),
            ),
            None => sni_names(b@, start as int, end as int) is None,
        },
{
    let mut s = start;
    while s <= end && end - s >= 3
        invariant
            end <= b.len() <= isize::MAX as usize,
            s <= b.len(),
            sni_names(b@, start as int, end as int) == sni_names(b@, s as int, end as int),
        decreases end - s,
    {
        let ty = b[s];
        let nl = rd16(b, s + 1);
        let s2 = s + 3;
        if ty == 0 && s2 + nl <= end {
            return Some((s2, s2 + nl));
        } else if s2 + nl > end {
            return None;
        }
        s = s2 + nl;
    }
    None
}

fn sni_extensions_exec(b: &[u8], start: usize, end: usize) -> (r: Result<Option<(usize, usize)>, ()>)
    requires
        end <= b.len(),
        start <= b.len(),
        b.len() <= isize::MAX as usize,
    ensures
        match r {
            Err(_) => sni_extensions(b@, start as int, end as int) is Malformed,
            Ok(None) => sni_extensions(b@, start as int, end as int) is NoName,
            Ok(Some((s, e))) => s <= e <= b.len() && sni_extensions(b@, start as int, end as int)
                == SniParse::Name(b@.subrange(s as int, e as int)),
        },
{
    let mut pos = start;
    while pos <= end && end - pos >= 4
        invariant
            end <= b.len() <= isize::MAX as usize,
            pos <= b.len(),
            sni_extensions(b@, start as int, end as int) == sni_extensions(b@, pos as int, end as int),
        decreases end - pos,
    {
        let t = rd16(b, pos);
        let l = rd16(b, pos + 2);
        let p = pos + 4;
        if t == 0 {
            if p + l > end {
                return Err(());
            }
            if l < 2 {
                return Err(());
            }
            match sni_names_exec(b, p + 2, p + l) {
                Some(found) => {
                    return Ok(Some(found));
                },
                None => {},
            }
        }
        if p + l > end {
            return Ok(None);
        }
        pos = p + l;
    }
    Ok(None)
}

/// Extracts the TLS server name from the first bytes of a connection:
/// `Err` for traffic that is not a well-formed ClientHello, `Ok(None)` while
/// more bytes are needed, `Ok(Some(""))` for a hello without a name.
pub fn extract_sni(buf: &[u8]) -> (r: Result<Option<String>, ()>)
    requires
        !sni_input_short(buf@),
        buf.len() <= isize::MAX as usize,
    ensures
        match sni_parse(buf@) {
            SniParse::Malformed => r is Err,
            SniParse::Incomplete => r == Ok::<Option<String>, ()>(None),
            SniParse::NoName => r matches Ok(Some(s)) && s@ == Seq::<char>::empty(),
            SniParse::Name(n) => r matches Ok(Some(s)) && s@ == utf8_lossy(n),
        },
{
    let n = buf.len();
    if n == 0 {
        return Ok(None);
    }
    if buf[0] != 0x16 {
        return Err(());
    }
    if n < 5 {
        return Ok(None);
    }
    let record_len = rd16(buf, 3);
    if n < 5 + record_len {
        return Ok(None);
    }
    if buf[5] != 0x01 {
        return Err(());
    }
    let handshake_len = buf[6] as usize * 65536 + buf[7] as usize * 256 + buf[8] as usize;
    if record_len < 4 + handshake_len {
        return Err(());
    }
    let pos: usize = 43;
    if pos >= n {
        return Err(());
    }
    let pos1 = pos + 1 + buf[pos] as usize;
    if pos1 + 2 > n {
        return Err(());
    }
    let pos2 = pos1 + 2 + rd16(buf, pos1);
    if pos2 >= n {
        return Err(());
    }
    let pos3 = pos2 + 1 + buf[pos2] as usize;
    if pos3 + 2 > n {
        return Ok(Some(String::new()));
    }
    let ext_end = pos3 + 2 + rd16(buf, pos3);
    if ext_end > n {
        return Err(());
    }
    match sni_extensions_exec(buf, pos3 + 2, ext_end) {
        Err(_) => Err(()),
        Ok(None) => Ok(Some(String::new())),
        Ok(Some((s, e))) => {
            let name = from_utf8_lossy(&buf[s..e]);
            assert(buf@.subrange(s as int, e as int) == buf@.subrange(s as int, e as int));
            Ok(Some(name))
        },
    }
}

/// Whether the TLS name `act` (normalized) fits the requested host `req`
/// (normalized): equal, one a subdomain of the other, or no name at all when
/// an IP literal was requested.
pub open spec fn sni_matches(req: Seq<char>, act: Seq<char>, req_is_ip: bool) -> bool {
    (act.len() == 0 && req_is_ip) || act == req || ends_with(act, seq!['.'] + req) || ends_with(
        req,
        seq!['.'] + act,
    )
}

/// A complete hello that names exactly the requested host (both
/// normalized) fits it, and so does one that names a subdomain of it,
/// whether or not the request was an IP literal.
pub proof fn lemma_sni_own_name_fits(req: Seq<char>, x: Seq<char>, ip: bool)
    ensures
        sni_matches(req, req, ip),
        sni_matches(req, x + seq!['.'] + req, ip),
{
    let act = x + seq!['.'] + req;
    assert(act.skip(act.len() - (seq!['.'] + req).len()) =~= seq!['.'] + req);
}

/// The decision on the bytes buffered so far on a port-443 tunnel.
#[derive(Debug, PartialEq, Eq)]
pub enum SniVerdict {
    /// Read more bytes.
    NeedMore,
    /// Too many bytes without a complete hello: close the tunnel.
    GiveUp,
    /// Non-TLS or malformed traffic: close the tunnel.
    Malformed,
    /// The server name fits the requested host: forward the buffer.
    Accept,
    /// The server name does not fit: close the tunnel.
    Mismatch { expected: String, actual: String },
}

/// Most bytes buffered while waiting for a complete ClientHello.
pub const SNI_BUFFER_LIMIT: usize = 8192;

/// Decides a port-443 tunnel from the bytes buffered so far. `host_is_ip`
/// says whether the requested host is an IP literal.
pub fn sni_gate(buf: &[u8], requested_host: &str, host_is_ip: bool) -> (v: SniVerdict)
    requires
        !sni_input_short(buf@),
        buf.len() <= isize::MAX as usize,
    ensures
        match sni_parse(buf@) {
            SniParse::Malformed => v is Malformed,
            SniParse::Incomplete => if buf.len() > SNI_BUFFER_LIMIT {
                v is GiveUp
            } else {
                v is NeedMore
            },
            SniParse::NoName => (v is Accept) == sni_matches(
                host_key(requested_host@),
                host_key(Seq::empty()),
                host_is_ip,
            ),
            SniParse::Name(n) => (v is Accept) == sni_matches(
                host_key(requested_host@),
                host_key(utf8_lossy(n)),
                host_is_ip,
            ),
        },
        v matches SniVerdict::Mismatch { expected, actual } ==> (expected@ == host_key(requested_host@)
            && (sni_parse(buf@) matches SniParse::Name(n) ==> actual@ == host_key(utf8_lossy(n)))),
        sni_parse(buf@) matches SniParse::Name(n) && host_key(utf8_lossy(n)) == host_key(requested_host@)
            ==> v is Accept,
{
    proof {
        lemma_sni_own_name_fits(host_key(requested_host@), Seq::empty(), host_is_ip);
    }
    match extract_sni(buf) {
        Err(_) => SniVerdict::Malformed,
        Ok(None) => {
            if buf.len() > SNI_BUFFER_LIMIT {
                SniVerdict::GiveUp
            } else {
                SniVerdict::NeedMore
            }
        },
        Ok(Some(sni)) => {
            let req = host_key_of(requested_host);
            let act = host_key_of(sni.as_str());
            let dot_req = dot_then(req.as_slice());
            let dot_act = dot_then(act.as_slice());
            if (act.len() == 0 && host_is_ip) || chars_eq(act.as_slice(), req.as_slice())
                || chars_ends_with(act.as_slice(), dot_req.as_slice()) || chars_ends_with(
                req.as_slice(),
                dot_act.as_slice(),
            ) {
                SniVerdict::Accept
            } else {
                SniVerdict::Mismatch {
                    expected: string_of(req.as_slice()),
                    actual: string_of(act.as_slice()),
                }
            }
        },
    }
}

/// The proxy URL for relay port `port`.
pub open spec fn proxy_url(port: u16) -> Seq<char> {
    seq!['h', 't', 't', 'p', ':', '/', '/', '1', '2', '7', '.', '0', '.', '0', '.', '1', ':'] + decimal(
        port as nat,
    )
}

/// The views of a sequence of string pairs.
pub open spec fn pairs_view(v: Seq<(String, String)>) -> Seq<(Seq<char>, Seq<char>)> {
    v.map_values(|p: (String, String)| (p.0@, p.1@))
}

/// The proxy environment for the agent.
pub open spec fn proxy_env_spec(port: u16) -> Seq<(Seq<char>, Seq<char>)> {
    let url = proxy_url(port);
    seq![
        ("HTTP_PROXY"@, url),
        ("HTTPS_PROXY"@, url),
        ("ALL_PROXY"@, url),
        ("http_proxy"@, url),
        ("https_proxy"@, url),
        ("all_proxy"@, url),
        ("NO_PROXY"@, Seq::empty()),
        ("no_proxy"@, Seq::empty()),
    ]
}

/// The proxy environment for the agent: every proxy variable (both cases)
/// points at the loopback relay, and no host bypasses it.
pub fn build_proxy_env(port: u16) -> (env: Vec<(String, String)>)
    ensures
        pairs_view(env@) == proxy_env_spec(port),
{
    let mut url: Vec<char> = Vec::new();
    let prefix = ['h', 't', 't', 'p', ':', '/', '/', '1', '2', '7', '.', '0', '.', '0', '.', '1', ':'];
    append_chars(&mut url, prefix.as_slice());
    let digits = decimal_chars(port as u64);
    append_chars(&mut url, digits.as_slice());
    assert(url@ =~= proxy_url(port));
    let u = string_of(url.as_slice());
    let mut env: Vec<(String, String)> = Vec::new();
    env.push(("HTTP_PROXY".to_owned(), u.clone()));
    env.push(("HTTPS_PROXY".to_owned(), u.clone()));
    env.push(("ALL_PROXY".to_owned(), u.clone()));
    env.push(("http_proxy".to_owned(), u.clone()));
    env.push(("https_proxy".to_owned(), u.clone()));
    env.push(("all_proxy".to_owned(), u));
    env.push(("NO_PROXY".to_owned(), String::new()));
    env.push(("no_proxy".to_owned(), String::new()));
    assert(pairs_view(env@) =~= proxy_env_spec(port));
    env
}

/// The characters inside single quotes for `s`: each `'` becomes `'\''`.
pub open spec fn single_quote_body(s: Seq<char>) -> Seq<char>
    decreases s.len(),
{
    if s.len() == 0 {
        Seq::empty()
    } else {
        single_quote_body(s.drop_last()) + if s.last() == '\'' {
            seq!['\'', '\\', '\'', '\'']
        } else {
            seq![s.last()]
        }
    }
}

/// `s` quoted for a POSIX shell: `''` when empty, else wrapped in single
/// quotes.
pub open spec fn posix_quote(s: Seq<char>) -> Seq<char> {
    if s.len() == 0 {
        seq!['\'', '\'']
    } else {
        seq!['\''] + single_quote_body(s) + seq!['\'']
    }
}

/// `s` quoted for a POSIX shell.
pub fn posix_shell_quote(s: &[char]) -> (out: Vec<char>)
    ensures
        out@ == posix_quote(s@),
{
    let mut out: Vec<char> = Vec::new();
    out.push('\'');
    if s.len() == 0 {
        out.push('\'');
        assert(out@ =~= seq!['\'', '\'']);
        return out;
    }
    let mut i: usize = 0;
    while i < s.len()
        invariant
            i <= s.len(),
            out@ == seq!['\''] + single_quote_body(s@.take(i as int)),
        decreases s.len() - i,
    {
        assert(s@.take(i + 1).drop_last() =~= s@.take(i as int));
        if s[i] == '\'' {
            out.push('\'');
            out.push('\\');
            out.push('\'');
            out.push('\'');
        } else {
            out.push(s[i]);
        }
        assert(out@ =~= seq!['\''] + single_quote_body(s@.take(i + 1)));
        i += 1;
    }
    assert(s@.take(s.len() as int) =~= s@);
    out.push('\'');
    out
}

/// The `GIT_SSH_COMMAND` for the executable at `executable`.
pub open spec fn git_ssh_command_spec(executable: Seq<char>) -> Seq<char> {
    let helper = posix_quote(executable) + " ssh-proxy %h %p"@;
    "ssh -o BatchMode=yes -o ProxyCommand="@ + posix_quote(helper)
}

/// A shell-safe `GIT_SSH_COMMAND` that runs this executable as the in-process
/// `ProxyCommand` helper (`<exe> ssh-proxy %h %p`).
pub fn build_git_ssh_command(executable: &str) -> (cmd: String)
    ensures
        cmd@ == git_ssh_command_spec(executable@),
{
    let exe = chars_of(executable);
    let mut helper = posix_shell_quote(exe.as_slice());
    let tail = chars_of(" ssh-proxy %h %p");
    append_chars(&mut helper, tail.as_slice());
    let quoted = posix_shell_quote(helper.as_slice());
    let mut cmd = chars_of("ssh -o BatchMode=yes -o ProxyCommand=");
    append_chars(&mut cmd, quoted.as_slice());
    string_of(cmd.as_slice())
}

/// The answer to an interactive connection prompt.
#[derive(Debug, PartialEq, Eq)]
pub struct AskReply {
    /// Whether this connection is allowed.
    pub allowed: bool,
    /// The normalized host to persist in the policy, for a permanent yes.
    pub persist: Option<String>,
}

/// The decision for a reply line: `y`/`yes` allows, `p`/`perm`/`permanent`
/// allows and persists, anything else (or no reply, or no terminal) denies.
pub open spec fn ask_decision(is_tty: bool, reply: Option<Seq<char>>) -> (bool, bool) {
    if !is_tty {
        (false, false)
    } else {
        match reply {
            None => (false, false),
            Some(line) => {
                let t = lower_chars(trim_ws(line));
                if t == seq!['y'] || t == seq!['y', 'e', 's'] {
                    (true, false)
                } else if t == seq!['p'] || t == seq!['p', 'e', 'r', 'm'] || t == seq![
                    'p',
                    'e',
                    'r',
                    'm',
                    'a',
                    'n',
                    'e',
                    'n',
                    't',
                ] {
                    (true, true)
                } else {
                    (false, false)
                }
            },
        }
    }
}

/// The text of an optional reply line.
pub open spec fn reply_view(reply: Option<&str>) -> Option<Seq<char>> {
    match reply {
        Some(l) => Some(l@),
        None => None,
    }
}

/// What the user is shown for an interactive confirmation of `host:port`:
/// the question on a terminal, and without one the fail-closed denial line.
pub open spec fn confirmation_text(host: Seq<char>, port: u16, is_tty: bool) -> Seq<char> {
    if is_tty {
        "vetto: allow network connection to '"@ + host + ":"@ + crate::text::decimal(port as nat)
            + "'? [y/N/p (permanent)]: "@
    } else {
        "vetto: [net=ask] interactive confirmation unavailable (stdin is not a tty); connection to '"@
            + host + ":"@ + crate::text::decimal(port as nat) + "' denied (fail-closed)\n"@
    }
}

/// The text shown for an interactive confirmation of `host:port`.
pub fn confirmation_prompt(host: &str, port: u16, is_tty: bool) -> (t: String)
    ensures
        t@ == confirmation_text(host@, port, is_tty),
{
    let mut m = if is_tty {
        chars_of("vetto: allow network connection to '")
    } else {
        chars_of("vetto: [net=ask] interactive confirmation unavailable (stdin is not a tty); connection to '")
    };
    let hc = chars_of(host);
    crate::text::append_chars(&mut m, hc.as_slice());
    let colon = chars_of(":");
    crate::text::append_chars(&mut m, colon.as_slice());
    let pc = crate::text::decimal_chars(port as u64);
    crate::text::append_chars(&mut m, pc.as_slice());
    let tail = if is_tty {
        chars_of("'? [y/N/p (permanent)]: ")
    } else {
        chars_of("' denied (fail-closed)\n")
    };
    crate::text::append_chars(&mut m, tail.as_slice());
    string_of(m.as_slice())
}

/// Decides an interactive confirmation for `host:port` from the line the
/// user typed (`None` when reading failed). Without a terminal the request
/// is denied (fail-closed).
pub fn prompt_confirmation_interactive(host: &str, port: u16, is_tty: bool, reply: Option<&str>) -> (r: AskReply)
    ensures
        r.allowed == ask_decision(is_tty, reply_view(reply)).0,
        match r.persist {
            Some(k) => ask_decision(is_tty, reply_view(reply)).1 && k@ == host_key(host@),
            None => !ask_decision(is_tty, reply_view(reply)).1,
        },
{
    if !is_tty {
        return AskReply { allowed: false, persist: None };
    }
    let line = match reply {
        Some(l) => l,
        None => {
            return AskReply { allowed: false, persist: None };
        },
    };
    let lc = chars_of(line);
    let t0 = trim(lc.as_slice());
    let t = to_ascii_lowercase(t0.as_slice());
    let y = ['y'];
    let yes = ['y', 'e', 's'];
    let p = ['p'];
    let perm = ['p', 'e', 'r', 'm'];
    let permanent = ['p', 'e', 'r', 'm', 'a', 'n', 'e', 'n', 't'];
    assert(y@ == seq!['y']);
    assert(yes@ == seq!['y', 'e', 's']);
    assert(p@ == seq!['p']);
    assert(perm@ == seq!['p', 'e', 'r', 'm']);
    assert(permanent@ == seq!['p', 'e', 'r', 'm', 'a', 'n', 'e', 'n', 't']);
    if chars_eq(t.as_slice(), y.as_slice()) || chars_eq(t.as_slice(), yes.as_slice()) {
        AskReply { allowed: true, persist: None }
    } else if chars_eq(t.as_slice(), p.as_slice()) || chars_eq(t.as_slice(), perm.as_slice())
        || chars_eq(t.as_slice(), permanent.as_slice()) {
        let key = host_key_of(host);
        AskReply { allowed: true, persist: Some(string_of(key.as_slice())) }
    } else {
        AskReply { allowed: false, persist: None }
    }
}

/// The map that a list of (key, answer) entries with distinct keys stands for.
pub open spec fn entries_map(es: Seq<(Vec<char>, bool)>) -> Map<Seq<char>, bool> {
    Map::new(
        |k: Seq<char>| exists|i: int| 0 <= i < es.len() && es[i].0@ == k,
        |k: Seq<char>| es[choose|i: int| 0 <= i < es.len() && es[i].0@ == k].1,
    )
}

/// The keys of the entries are distinct.
pub open spec fn distinct_keys(es: Seq<(Vec<char>, bool)>) -> bool {
    forall|i: int, j: int| 0 <= i < es.len() && 0 <= j < es.len() && i != j ==> es[i].0@ != es[j].0@
}

proof fn lemma_entries_lookup(es: Seq<(Vec<char>, bool)>, i: int)
    requires
        distinct_keys(es),
        0 <= i < es.len(),
    ensures
        entries_map(es).contains_key(es[i].0@),
        entries_map(es)[es[i].0@] == es[i].1,
{
    let k = es[i].0@;
    let j = choose|j: int| 0 <= j < es.len() && es[j].0@ == k;
    assert(j == i);
}

proof fn lemma_entries_update(es: Seq<(Vec<char>, bool)>, i: int, e: (Vec<char>, bool))
    requires
        distinct_keys(es),
        0 <= i < es.len(),
        es[i].0@ == e.0@,
    ensures
        distinct_keys(es.update(i, e)),
        entries_map(es.update(i, e)) == entries_map(es).insert(e.0@, e.1),
{
    let n = es.update(i, e);
    assert(distinct_keys(n));
    let m = entries_map(n);
    let x = entries_map(es).insert(e.0@, e.1);
    assert forall|k: Seq<char>| #[trigger] m.contains_key(k) == x.contains_key(k) by {
        if x.contains_key(k) && k != e.0@ {
            let j = choose|j: int| 0 <= j < es.len() && es[j].0@ == k;
            assert(n[j].0@ == k);
        }
        if k == e.0@ {
            assert(n[i].0@ == k);
        }
    }
    assert forall|k: Seq<char>| #[trigger] m.contains_key(k) implies m[k] == x[k] by {
        let j = choose|j: int| 0 <= j < n.len() && n[j].0@ == k;
        lemma_entries_lookup(n, j);
        if k != e.0@ {
            assert(j != i);
            assert(es[j] == n[j]);
            lemma_entries_lookup(es, j);
        } else {
            assert(j == i);
        }
    }
    assert(m =~= x);
}

proof fn lemma_entries_push(es: Seq<(Vec<char>, bool)>, e: (Vec<char>, bool))
    requires
        distinct_keys(es),
        forall|i: int| 0 <= i < es.len() ==> es[i].0@ != e.0@,
    ensures
        distinct_keys(es.push(e)),
        entries_map(es.push(e)) == entries_map(es).insert(e.0@, e.1),
{
    let n = es.push(e);
    assert(distinct_keys(n));
    let m = entries_map(n);
    let x = entries_map(es).insert(e.0@, e.1);
    assert forall|k: Seq<char>| #[trigger] m.contains_key(k) == x.contains_key(k) by {
        if x.contains_key(k) && k != e.0@ {
            let j = choose|j: int| 0 <= j < es.len() && es[j].0@ == k;
            assert(n[j].0@ == k);
        }
        if k == e.0@ {
            assert(n[es.len() as int].0@ == k);
        }
        if m.contains_key(k) && k != e.0@ {
            let j = choose|j: int| 0 <= j < n.len() && n[j].0@ == k;
            assert(j < es.len());
            assert(es[j].0@ == k);
        }
    }
    assert forall|k: Seq<char>| #[trigger] m.contains_key(k) implies m[k] == x[k] by {
        let j = choose|j: int| 0 <= j < n.len() && n[j].0@ == k;
        lemma_entries_lookup(n, j);
        if k != e.0@ {
            assert(j < es.len());
            assert(es[j] == n[j]);
            lemma_entries_lookup(es, j);
        } else {
            assert(j == es.len());
        }
    }
    assert(m =~= x);
}

/// Answers already given in this session, by normalized host.
pub struct AskCache {
    entries: Vec<(Vec<char>, bool)>,
}

impl AskCache {
    /// The answers as a map from normalized host.
    pub closed spec fn view_map(&self) -> Map<Seq<char>, bool> {
        entries_map(self.entries@)
    }

    /// Keys are distinct.
    pub closed spec fn wf(&self) -> bool {
        distinct_keys(self.entries@)
    }

    /// An empty cache.
    pub fn new() -> (c: Self)
        ensures
            c.wf(),
            c.view_map() == Map::<Seq<char>, bool>::empty(),
    {
        let c = AskCache { entries: Vec::new() };
        assert(c.view_map() =~= Map::<Seq<char>, bool>::empty());
        c
    }

    fn find(&self, key: &[char]) -> (r: Option<usize>)
        ensures
            match r {
                Some(i) => i < self.entries@.len() && self.entries@[i as int].0@ == key@,
                None => forall|i: int| 0 <= i < self.entries@.len() ==> self.entries@[i].0@ != key@,
            },
    {
        let mut i: usize = 0;
        while i < self.entries.len()
            invariant
                i <= self.entries@.len(),
                forall|k: int| 0 <= k < i ==> self.entries@[k].0@ != key@,
            decreases self.entries@.len() - i,
        {
            if chars_eq(self.entries[i].0.as_slice(), key) {
                return Some(i);
            }
            i += 1;
        }
        None
    }

    /// The answer recorded for `host`, if any.
    pub fn get(&self, host: &str) -> (r: Option<bool>)
        requires
            self.wf(),
        ensures
            match r {
                Some(b) => self.view_map().contains_key(host_key(host@)) && self.view_map()[host_key(
                    host@,
                )] == b,
                None => !self.view_map().contains_key(host_key(host@)),
            },
    {
        let key = host_key_of(host);
        match self.find(key.as_slice()) {
            Some(i) => {
                proof {
                    lemma_entries_lookup(self.entries@, i as int);
                }
                Some(self.entries[i].1)
            },
            None => None,
        }
    }

    /// Records the answer for `host` (replacing an earlier one).
    pub fn insert(&mut self, host: &str, allowed: bool)
        requires
            old(self).wf(),
        ensures
            final(self).wf(),
            final(self).view_map() == old(self).view_map().insert(host_key(host@), allowed),
    {
        let key = host_key_of(host);
        match self.find(key.as_slice()) {
            Some(i) => {
                let k = copy_key(key.as_slice());
                proof {
                    lemma_entries_update(self.entries@, i as int, (k, allowed));
                }
                self.entries.set(i, (k, allowed));
            },
            None => {
                proof {
                    lemma_entries_push(self.entries@, (key, allowed));
                }
                self.entries.push((key, allowed));
            },
        }
    }

    /// Forgets every answer.
    pub fn clear(&mut self)
        ensures
            final(self).wf(),
            final(self).view_map() == Map::<Seq<char>, bool>::empty(),
    {
        self.entries = Vec::new();
        assert(self.view_map() =~= Map::<Seq<char>, bool>::empty());
    }
}

fn copy_key(k: &[char]) -> (out: Vec<char>)
    ensures
        out@ == k@,
{
    crate::text::copy_chars(k)
}

/// Forgets every remembered answer of the session.
pub fn reset_ask_cache(cache: &mut AskCache)
    ensures
        final(cache).wf(),
        final(cache).view_map() == Map::<Seq<char>, bool>::empty(),
{
    cache.clear();
}


/// An IP network: an address and the length of its prefix in bits.
#[derive(Debug, Clone, Copy, PartialEq, Eq)]
pub struct IpCidr {
    pub network: IpAddress,
    pub prefix_len: u8,
}

/// Why a CIDR text was refused.
#[derive(Debug, Clone, Copy, PartialEq, Eq, Structural)]
pub enum CidrError {
    /// The text after `/` is no `u8`.
    BadPrefix,
    /// The address part is no IP address.
    BadAddress,
    /// An IPv4 prefix longer than 32 bits.
    V4PrefixTooLong(u8),
    /// An IPv6 prefix longer than 128 bits.
    V6PrefixTooLong(u8),
}

/// The octets of an address.
pub open spec fn octets(ip: IpAddress) -> Seq<u8> {
    match ip {
        IpAddress::V4(o) => o@,
        IpAddress::V6(o) => o@,
    }
}

/// The first `prefix` bits of `a` and `b` agree.
pub open spec fn prefix_match(a: Seq<u8>, b: Seq<u8>, prefix: nat) -> bool {
    let whole = (prefix / 8) as int;
    let rest = prefix % 8;
    &&& forall|k: int| 0 <= k < whole ==> #[trigger] a[k] == b[k]
    &&& rest == 0 || (a[whole] >> ((8 - rest) as u8)) == (b[whole] >> ((8 - rest) as u8))
}

/// A network is well formed when its prefix fits its address family.
pub open spec fn cidr_wf(c: IpCidr) -> bool {
    match c.network {
        IpAddress::V4(_) => c.prefix_len <= 32,
        IpAddress::V6(_) => c.prefix_len <= 128,
    }
}

/// Whether `target` lies in network `c`: same family, and the first
/// `prefix_len` bits agree.
pub open spec fn cidr_contains(c: IpCidr, target: IpAddress) -> bool {
    match (c.network, target) {
        (IpAddress::V4(_), IpAddress::V4(_)) => prefix_match(octets(c.network), octets(target), c.prefix_len as nat),
        (IpAddress::V6(_), IpAddress::V6(_)) => prefix_match(octets(c.network), octets(target), c.prefix_len as nat),
        _ => false,
    }
}

fn bytes_prefix_match(a: &[u8], b: &[u8], prefix: u8) -> (r: bool)
    requires
        a@.len() == b@.len(),
        prefix as int <= 8 * a@.len(),
    ensures
        r == prefix_match(a@, b@, prefix as nat),
{
    let whole: usize = (prefix / 8) as usize;
    let rest: u8 = prefix % 8;
    let mut k: usize = 0;
    while k < whole
        invariant
            whole == (prefix / 8) as usize,
            whole <= a@.len(),
            a@.len() == b@.len(),
            k <= whole,
            forall|j: int| 0 <= j < k ==> a@[j] == b@[j],
        decreases whole - k,
    {
        if a[k] != b[k] {
            return false;
        }
        k += 1;
    }
    if rest == 0 {
        return true;
    }
    (a[whole] >> (8 - rest)) == (b[whole] >> (8 - rest))
}

impl IpCidr {
    /// Whether `target` lies in this network.
    pub fn contains(&self, target: IpAddress) -> (r: bool)
        requires
            cidr_wf(*self),
        ensures
            r == cidr_contains(*self, target),
    {
        match (self.network, target) {
            (IpAddress::V4(n), IpAddress::V4(t)) => bytes_prefix_match(&n, &t, self.prefix_len),
            (IpAddress::V6(n), IpAddress::V6(t)) => bytes_prefix_match(&n, &t, self.prefix_len),
            _ => false,
        }
    }

    /// The network of `ip` with the given prefix (the whole address where
    /// none is given); refused where the prefix is longer than the family's
    /// address.
    pub fn from_parts(ip: IpAddress, prefix: Option<u8>) -> (r: Result<IpCidr, CidrError>)
        ensures
            match r {
                Ok(c) => c.network == ip && cidr_wf(c) && c.prefix_len == match prefix {
                    Some(p) => p,
                    None => if ip is V4 {
                        32u8
                    } else {
                        128u8
                    },
                },
                Err(e) => match (ip, prefix) {
                    (IpAddress::V4(_), Some(p)) => p > 32 && e == CidrError::V4PrefixTooLong(p),
                    (IpAddress::V6(_), Some(p)) => p > 128 && e == CidrError::V6PrefixTooLong(p),
                    _ => false,
                },
            },
    {
        match ip {
            IpAddress::V4(_) => match prefix {
                Some(p) => if p > 32 {
                    Err(CidrError::V4PrefixTooLong(p))
                } else {
                    Ok(IpCidr { network: ip, prefix_len: p })
                },
                None => Ok(IpCidr { network: ip, prefix_len: 32 }),
            },
            IpAddress::V6(_) => match prefix {
                Some(p) => if p > 128 {
                    Err(CidrError::V6PrefixTooLong(p))
                } else {
                    Ok(IpCidr { network: ip, prefix_len: p })
                },
                None => Ok(IpCidr { network: ip, prefix_len: 128 }),
            },
        }
    }
}

/// `s` without leading `[` and trailing `]`: the text an address is read
/// from.
pub open spec fn bracketless(s: Seq<char>) -> Seq<char> {
    trim_end_char(trim_start_char(s, '['), ']')
}

/// How a CIDR text splits: the address text (trimmed, brackets dropped) and
/// the prefix read as a `u8` where a `/` is present.
pub open spec fn cidr_split_spec(s: Seq<char>) -> Result<(Seq<char>, Option<u8>), CidrError> {
    let t = trim_ws(s);
    match find_from(t, seq!['/'], 0) {
        Some(k) => match parse_unsigned(trim_ws(t.skip(k + 1)), 255) {
            Some(p) => Ok((bracketless(trim_ws(t.take(k))), Some(p as u8))),
            None => Err(CidrError::BadPrefix),
        },
        None => Ok((bracketless(t), None)),
    }
}

/// Splits a CIDR text into the address text to read and the prefix.
pub fn split_cidr(s: &str) -> (r: Result<(String, Option<u8>), CidrError>)
    ensures
        match r {
            Ok((ip, p)) => cidr_split_spec(s@) == Ok::<(Seq<char>, Option<u8>), CidrError>((ip@, p)),
            Err(e) => cidr_split_spec(s@) == Err::<(Seq<char>, Option<u8>), CidrError>(e),
        },
{
    let cs = chars_of(s);
    let t = trim(cs.as_slice());
    let slash = vec!['/'];
    assert(slash@ =~= seq!['/']);
    match find_chars(t.as_slice(), slash.as_slice(), 0) {
        Some(k) => {
            let pre = sub_chars(t.as_slice(), 0, k);
            assert(pre@ =~= t@.take(k as int));
            let post = sub_chars(t.as_slice(), k + 1, t.len());
            assert(post@ =~= t@.skip(k + 1));
            let pt = trim(post.as_slice());
            proof {
                let d = crate::text::unsigned_digits(pt@);
                if all_digits(d) {
                    crate::text::lemma_digits_value_nonneg(d);
                }
            }
            match crate::text::parse_u32(pt.as_slice()) {
                Some(v) => {
                    if v > 255 {
                        return Err(CidrError::BadPrefix);
                    }
                    let ip = trim(pre.as_slice());
                    let a = trim_start_matches(ip.as_slice(), '[');
                    let b = trim_end_matches(a.as_slice(), ']');
                    Ok((string_of(b.as_slice()), Some(v as u8)))
                },
                None => Err(CidrError::BadPrefix),
            }
        },
        None => {
            let a = trim_start_matches(t.as_slice(), '[');
            let b = trim_end_matches(a.as_slice(), ']');
            Ok((string_of(b.as_slice()), None))
        },
    }
}

/// The address text of a host as matching reads it: normalized (trimmed,
/// trailing dots dropped, lower case), brackets dropped.
pub open spec fn host_ip_text_spec(host: Seq<char>) -> Seq<char> {
    bracketless(host_key(host))
}

/// The address text of a host, to be read as an IP address.
pub fn host_ip_text(host: &str) -> (r: String)
    ensures
        r@ == host_ip_text_spec(host@),
{
    let k = host_key_of(host);
    let a = trim_start_matches(k.as_slice(), '[');
    let b = trim_end_matches(a.as_slice(), ']');
    string_of(b.as_slice())
}

/// The pattern text as matching reads it (normalized like a host).
pub fn pattern_text(pattern: &str) -> (r: String)
    ensures
        r@ == host_key(pattern@),
{
    let k = host_key_of(pattern);
    string_of(k.as_slice())
}

/// Whether `host` matches quota pattern `pattern`: `*` matches everything; a
/// host equal to the pattern matches; an address host matches a CIDR
/// pattern by containment; `*.d` matches `d` and its subdomains; `d`
/// matches its subdomains. `host_ip` is the host's address text read as an
/// address, `pattern_cidr` the pattern read as a network, where they read.
pub open spec fn domain_matches_spec(
    host: Seq<char>,
    pattern: Seq<char>,
    host_ip: Option<IpAddress>,
    pattern_cidr: Option<IpCidr>,
) -> bool {
    let h = host_key(host);
    let p = host_key(pattern);
    if p == seq!['*'] || h == p {
        true
    } else if host_ip is Some && pattern_cidr is Some {
        cidr_contains(pattern_cidr->Some_0, host_ip->Some_0)
    } else if starts_with(p, seq!['*', '.']) {
        ends_with(h, seq!['.'] + p.skip(2)) || h == p.skip(2)
    } else {
        ends_with(h, seq!['.'] + p)
    }
}

/// Matches a host against a quota pattern.
pub fn domain_matches_pattern(
    host: &str,
    pattern: &str,
    host_ip: Option<IpAddress>,
    pattern_cidr: Option<IpCidr>,
) -> (r: bool)
    requires
        pattern_cidr matches Some(c) ==> cidr_wf(c),
    ensures
        r == domain_matches_spec(host@, pattern@, host_ip, pattern_cidr),
{
    let h = host_key_of(host);
    let p = host_key_of(pattern);
    let star = vec!['*'];
    assert(star@ =~= seq!['*']);
    if chars_eq(p.as_slice(), star.as_slice()) || chars_eq(h.as_slice(), p.as_slice()) {
        return true;
    }
    if let (Some(ip), Some(c)) = (host_ip, pattern_cidr) {
        return c.contains(ip);
    }
    let wild = vec!['*', '.'];
    assert(wild@ =~= seq!['*', '.']);
    if chars_starts_with(p.as_slice(), wild.as_slice()) {
        let suffix = sub_chars(p.as_slice(), 2, p.len());
        assert(suffix@ =~= p@.skip(2));
        let dotted = dot_then(suffix.as_slice());
        chars_ends_with(h.as_slice(), dotted.as_slice()) || chars_eq(h.as_slice(), suffix.as_slice())
    } else {
        let dotted = dot_then(p.as_slice());
        chars_ends_with(h.as_slice(), dotted.as_slice())
    }
}

/// Requests and bytes relayed for one host.
#[derive(Debug, Clone, Copy, PartialEq, Eq, Structural)]
pub struct DomainStats {
    pub requests: u64,
    pub bytes_tx: u64,
    pub bytes_rx: u64,
}

/// Per-host transfer statistics, keyed by the host trimmed and in ASCII
/// lower case. Each record also keeps the host read as an address, where
/// it reads as one.
pub struct TransferStats {
    entries: Vec<(String, Option<IpAddress>, DomainStats)>,
}

/// A transfer record as plain values.
pub open spec fn record_view(e: (String, Option<IpAddress>, DomainStats)) -> (Seq<char>, Option<IpAddress>, DomainStats) {
    (e.0@, e.1, e.2)
}

/// The key a host is recorded under.
pub open spec fn transfer_key(host: Seq<char>) -> Seq<char> {
    lower_chars(trim_ws(host))
}

/// The bytes of a record, saturating.
pub open spec fn record_bytes(s: DomainStats) -> u64 {
    if s.bytes_tx + s.bytes_rx > u64::MAX {
        u64::MAX
    } else {
        (s.bytes_tx + s.bytes_rx) as u64
    }
}

/// The saturating sum of the bytes of the records matching `pattern`.
pub open spec fn quota_sum(
    recs: Seq<(Seq<char>, Option<IpAddress>, DomainStats)>,
    pattern: Seq<char>,
    pattern_cidr: Option<IpCidr>,
) -> u64
    decreases recs.len(),
{
    if recs.len() == 0 {
        0
    } else {
        let prev = quota_sum(recs.drop_last(), pattern, pattern_cidr);
        let r = recs.last();
        if domain_matches_spec(r.0, pattern, r.1, pattern_cidr) {
            if prev + record_bytes(r.2) > u64::MAX {
                u64::MAX
            } else {
                (prev + record_bytes(r.2)) as u64
            }
        } else {
            prev
        }
    }
}

impl TransferStats {
    /// The records, in the order hosts were first seen.
    pub closed spec fn records(&self) -> Seq<(Seq<char>, Option<IpAddress>, DomainStats)> {
        self.entries@.map_values(|e: (String, Option<IpAddress>, DomainStats)| record_view(e))
    }

    /// No host is recorded twice.
    pub open spec fn wf(&self) -> bool {
        forall|i: int, j: int|
            0 <= i < self.records().len() && 0 <= j < self.records().len() && i != j ==> (
            #[trigger] self.records()[i]).0 != (#[trigger] self.records()[j]).0
    }

    /// No statistics.
    pub fn new() -> (s: Self)
        ensures
            s.wf(),
            s.records().len() == 0,
    {
        let s = TransferStats { entries: Vec::new() };
        assert(s.records() =~= Seq::<(Seq<char>, Option<IpAddress>, DomainStats)>::empty());
        s
    }

    /// Records one relayed connection of `host`: one more request and the
    /// bytes sent and received. `host_ip` is the host's address text
    /// (`host_ip_text`) read as an address, where it reads as one.
    pub fn add_transfer(&mut self, host: &str, host_ip: Option<IpAddress>, tx: u64, rx: u64) -> (found: Option<usize>)
        requires
            old(self).wf(),
            forall|i: int|
                0 <= i < old(self).records().len() && (#[trigger] old(self).records()[i]).0
                    == transfer_key(host@) ==> old(self).records()[i].2.requests < u64::MAX
                    && old(self).records()[i].2.bytes_tx + tx <= u64::MAX
                    && old(self).records()[i].2.bytes_rx + rx <= u64::MAX,
        ensures
            final(self).wf(),
            match found {
                Some(i) => i < old(self).records().len() && old(self).records()[i as int].0
                    == transfer_key(host@) && final(self).records() == old(self).records().update(
                    i as int,
                    (old(self).records()[i as int].0, old(self).records()[i as int].1, DomainStats {
                        requests: (old(self).records()[i as int].2.requests + 1) as u64,
                        bytes_tx: (old(self).records()[i as int].2.bytes_tx + tx) as u64,
                        bytes_rx: (old(self).records()[i as int].2.bytes_rx + rx) as u64,
                    }),
                ),
                None => (forall|i: int|
                    0 <= i < old(self).records().len() ==> (#[trigger] old(self).records()[i]).0
                        != transfer_key(host@)) && final(self).records() == old(self).records().push(
                    (transfer_key(host@), host_ip, DomainStats { requests: 1, bytes_tx: tx, bytes_rx: rx }),
                ),
            },
    {
        let ghost v = self.records();
        let cs = chars_of(host);
        let t = trim(cs.as_slice());
        let key = to_ascii_lowercase(t.as_slice());
        let mut i: usize = 0;
        while i < self.entries.len()
            invariant
                i <= self.entries.len(),
                v == self.records(),
                v == old(self).records(),
                self.wf(),
                key@ == transfer_key(host@),
                forall|j: int| 0 <= j < i ==> v[j].0 != key@,
                forall|j: int|
                    0 <= j < v.len() && (#[trigger] v[j]).0 == key@ ==> v[j].2.requests < u64::MAX
                        && v[j].2.bytes_tx + tx <= u64::MAX && v[j].2.bytes_rx + rx <= u64::MAX,
            decreases self.entries.len() - i,
        {
            let k = chars_of(self.entries[i].0.as_str());
            if chars_eq(k.as_slice(), key.as_slice()) {
                assert(v[i as int].0 == key@);
                let old_e = &self.entries[i];
                let st = DomainStats {
                    requests: old_e.2.requests + 1,
                    bytes_tx: old_e.2.bytes_tx + tx,
                    bytes_rx: old_e.2.bytes_rx + rx,
                };
                let e = (old_e.0.clone(), old_e.1, st);
                self.entries.set(i, e);
                assert(self.records() =~= v.update(i as int, (v[i as int].0, v[i as int].1, st)));
                return Some(i);
            }
            i += 1;
        }
        self.entries.push((string_of(key.as_slice()), host_ip, DomainStats { requests: 1, bytes_tx: tx, bytes_rx: rx }));
        assert(self.records() =~= v.push(
            (key@, host_ip, DomainStats { requests: 1, bytes_tx: tx, bytes_rx: rx }),
        ));
        None
    }

    /// Whether one more connection of `host` moving `tx` and `rx` bytes can
    /// be recorded without a counter overflowing.
    pub fn can_add_transfer(&self, host: &str, tx: u64, rx: u64) -> (ok: bool)
        ensures
            ok == forall|i: int|
                0 <= i < self.records().len() && (#[trigger] self.records()[i]).0 == transfer_key(host@)
                    ==> self.records()[i].2.requests < u64::MAX && self.records()[i].2.bytes_tx + tx
                    <= u64::MAX && self.records()[i].2.bytes_rx + rx <= u64::MAX,
    {
        let ghost v = self.records();
        let cs = chars_of(host);
        let t = trim(cs.as_slice());
        let key = to_ascii_lowercase(t.as_slice());
        let mut i: usize = 0;
        while i < self.entries.len()
            invariant
                i <= self.entries.len(),
                v == self.records(),
                key@ == transfer_key(host@),
                forall|j: int|
                    0 <= j < i && (#[trigger] v[j]).0 == key@ ==> v[j].2.requests < u64::MAX
                        && v[j].2.bytes_tx + tx <= u64::MAX && v[j].2.bytes_rx + rx <= u64::MAX,
            decreases self.entries.len() - i,
        {
            let k = chars_of(self.entries[i].0.as_str());
            if chars_eq(k.as_slice(), key.as_slice()) {
                let st = self.entries[i].2;
                assert(v[i as int] == record_view(self.entries@[i as int]));
                if st.requests == u64::MAX || st.bytes_tx > u64::MAX - tx || st.bytes_rx > u64::MAX - rx {
                    return false;
                }
            }
            proof {
                assert(v[i as int] == record_view(self.entries@[i as int]));
            }
            i += 1;
        }
        true
    }

    /// The bytes recorded for `host` (0 when it was never seen).
    pub fn domain_bytes(&self, host: &str) -> (b: u64)
        requires
            self.wf(),
        ensures
            (forall|i: int| 0 <= i < self.records().len() ==> (#[trigger] self.records()[i]).0 != transfer_key(host@)) ==> b == 0,
            forall|i: int|
                0 <= i < self.records().len() && (#[trigger] self.records()[i]).0 == transfer_key(host@)
                    ==> b == record_bytes(self.records()[i].2),
    {
        let ghost v = self.records();
        let cs = chars_of(host);
        let t = trim(cs.as_slice());
        let key = to_ascii_lowercase(t.as_slice());
        let mut i: usize = 0;
        while i < self.entries.len()
            invariant
                i <= self.entries.len(),
                v == self.records(),
                self.wf(),
                key@ == transfer_key(host@),
                forall|j: int| 0 <= j < i ==> v[j].0 != key@,
            decreases self.entries.len() - i,
        {
            let k = chars_of(self.entries[i].0.as_str());
            if chars_eq(k.as_slice(), key.as_slice()) {
                let st = self.entries[i].2;
                assert(v[i as int].2 == st);
                return st.bytes_tx.saturating_add(st.bytes_rx);
            }
            i += 1;
        }
        0
    }

    /// The total bytes relayed for all recorded hosts matching `pattern`
    /// (saturating). `pattern_cidr` is the pattern read as a network, where
    /// it reads as one.
    pub fn get_quota_bytes(&self, pattern: &str, pattern_cidr: Option<IpCidr>) -> (total: u64)
        requires
            pattern_cidr matches Some(c) ==> cidr_wf(c),
        ensures
            total == quota_sum(self.records(), pattern@, pattern_cidr),
    {
        let ghost v = self.records();
        let mut total: u64 = 0;
        let mut i: usize = 0;
        assert(v.take(0) =~= Seq::<(Seq<char>, Option<IpAddress>, DomainStats)>::empty());
        while i < self.entries.len()
            invariant
                i <= self.entries.len(),
                v == self.records(),
                pattern_cidr matches Some(c) ==> cidr_wf(c),
                total == quota_sum(v.take(i as int), pattern@, pattern_cidr),
            decreases self.entries.len() - i,
        {
            assert(v.take(i + 1).drop_last() =~= v.take(i as int));
            assert(v.take(i + 1).last() == v[i as int]);
            let e = &self.entries[i];
            if domain_matches_pattern(e.0.as_str(), pattern, e.1, pattern_cidr) {
                total = total.saturating_add(e.2.bytes_tx.saturating_add(e.2.bytes_rx));
            }
            i += 1;
        }
        assert(v.take(v.len() as int) =~= v);
        total
    }

    /// Forgets every record.
    pub fn reset(&mut self)
        ensures
            final(self).wf(),
            final(self).records().len() == 0,
    {
        self.entries = Vec::new();
        assert(self.records() =~= Seq::<(Seq<char>, Option<IpAddress>, DomainStats)>::empty());
    }
}

/// Forgets all transfer statistics.
pub fn reset_domain_transfer_stats(stats: &mut TransferStats)
    ensures
        final(stats).wf(),
        final(stats).records().len() == 0,
{
    stats.reset();
}


/// A transfer quota: a host pattern, its byte limit, and the pattern read
/// as a network where it reads as one.
#[derive(Debug, Clone, PartialEq, Eq)]
pub struct QuotaRule {
    pub pattern: String,
    pub limit: u64,
    pub cidr: Option<IpCidr>,
}

/// The length of a pattern as `String::len` gives it: its UTF-8 bytes.
pub open spec fn byte_len(s: Seq<char>) -> usize {
    encode_utf8(s).len() as usize
}

/// Quota rules as plain values.
pub open spec fn quota_view(q: Seq<QuotaRule>) -> Seq<(Seq<char>, u64, Option<IpCidr>)> {
    q.map_values(|r: QuotaRule| (r.pattern@, r.limit, r.cidr))
}

/// Whether quota rule `r` applies to `host`.
#[verifier::opaque]
pub open spec fn rule_hits(host: Seq<char>, host_ip: Option<IpAddress>, r: (Seq<char>, u64, Option<IpCidr>)) -> bool {
    domain_matches_spec(host, r.0, host_ip, r.2)
}

/// The matches of `host` among the quota rules `q`, as the broker enforces
/// them: exactly the matching rules, each once, most specific (longest
/// pattern) first.
pub open spec fn quotas_found(
    host: Seq<char>,
    host_ip: Option<IpAddress>,
    q: Seq<(Seq<char>, u64, Option<IpCidr>)>,
    out: Seq<(Seq<char>, u64)>,
) -> bool {
    quotas_found_among(host, host_ip, q, q.len() as int, out)
}

/// Inserts `rule`'s pattern and limit before the first entry with a
/// shorter pattern, keeping the longest-first order.
fn insert_by_len(out: &mut Vec<(String, u64)>, rule: &QuotaRule) -> (p: usize)
    requires
        forall|m1: int, m2: int|
            0 <= m1 < m2 < old(out)@.len() ==> byte_len((#[trigger] old(out)@[m1]).0@) >= byte_len(
                (#[trigger] old(out)@[m2]).0@,
            ),
    ensures
        p <= old(out)@.len(),
        final(out)@.map_values(|e: (String, u64)| (e.0@, e.1)) == old(out)@.map_values(
            |e: (String, u64)| (e.0@, e.1),
        ).insert(p as int, (rule.pattern@, rule.limit)),
        forall|m1: int, m2: int|
            0 <= m1 < m2 < final(out)@.len() ==> byte_len((#[trigger] final(out)@[m1]).0@) >= byte_len(
                (#[trigger] final(out)@[m2]).0@,
            ),
{
    let ghost s0 = out@.map_values(|e: (String, u64)| (e.0@, e.1));
    let len = rule.pattern.as_str().len();
    let mut p: usize = 0;
    while p < out.len() && out[p].0.as_str().len() >= len
        invariant
            p <= out.len(),
            s0 == out@.map_values(|e: (String, u64)| (e.0@, e.1)),
            len == byte_len(rule.pattern@),
            forall|k: int| 0 <= k < p ==> byte_len((#[trigger] s0[k]).0) >= byte_len(rule.pattern@),
        decreases out.len() - p,
    {
        assert(s0[p as int].0 == out@[p as int].0@);
        p += 1;
    }
    proof {
        if p < s0.len() {
            assert(s0[p as int].0 == out@[p as int].0@);
        }
        assert forall|m1: int, m2: int| 0 <= m1 < m2 < s0.len() implies byte_len((#[trigger] s0[m1]).0)
            >= byte_len((#[trigger] s0[m2]).0) by {
            assert(s0[m1].0 == out@[m1].0@ && s0[m2].0 == out@[m2].0@);
        }
        lemma_insert_ordered(s0, (rule.pattern@, rule.limit), p as int);
    }
    out.insert(p, (rule.pattern.clone(), rule.limit));
    proof {
        let s2 = out@.map_values(|e: (String, u64)| (e.0@, e.1));
        assert(s2 =~= s0.insert(p as int, (rule.pattern@, rule.limit)));
        assert forall|m1: int, m2: int| 0 <= m1 < m2 < out@.len() implies byte_len((#[trigger] out@[m1]).0@)
            >= byte_len((#[trigger] out@[m2]).0@) by {
            assert(s2[m1].0 == out@[m1].0@ && s2[m2].0 == out@[m2].0@);
        }
    }
    p
}

/// All quota rules matching `host`, most specific first. `host_ip` is the
/// host's address text (`host_ip_text`) read as an address, where it reads
/// as one. The patterns are distinct, as the keys of the quota table.
pub fn find_matching_quotas(host: &str, host_ip: Option<IpAddress>, quotas: &[QuotaRule]) -> (out: Vec<(String, u64)>)
    requires
        forall|i: int, j: int|
            0 <= i < quotas@.len() && 0 <= j < quotas@.len() && i != j ==> (#[trigger] quotas@[i]).pattern@
                != (#[trigger] quotas@[j]).pattern@,
        forall|i: int| 0 <= i < quotas@.len() ==> ((#[trigger] quotas@[i]).cidr matches Some(c) ==> cidr_wf(c)),
    ensures
        quotas_found(
            host@,
            host_ip,
            quota_view(quotas@),
            out@.map_values(|e: (String, u64)| (e.0@, e.1)),
        ),
{
    let ghost q = quota_view(quotas@);
    let mut out: Vec<(String, u64)> = Vec::new();
    let mut i: usize = 0;
    while i < quotas.len()
        invariant
            i <= quotas.len(),
            q == quota_view(quotas@),
            forall|a: int, b: int|
                0 <= a < quotas@.len() && 0 <= b < quotas@.len() && a != b ==> (#[trigger] quotas@[a]).pattern@
                    != (#[trigger] quotas@[b]).pattern@,
            forall|k: int| 0 <= k < quotas@.len() ==> ((#[trigger] quotas@[k]).cidr matches Some(c) ==> cidr_wf(c)),
            quotas_found_among(host@, host_ip, q, i as int, out@.map_values(|e: (String, u64)| (e.0@, e.1))),
        decreases quotas.len() - i,
    {
        let rule = &quotas[i];
        let ghost x = q[i as int];
        assert(x == (rule.pattern@, rule.limit, rule.cidr));
        if domain_matches_pattern(host, rule.pattern.as_str(), host_ip, rule.cidr) {
            let ghost s0 = out@.map_values(|e: (String, u64)| (e.0@, e.1));
            proof {
                reveal(rule_hits);
                assert(rule_hits(host@, host_ip, q[i as int]));
                assert forall|m1: int, m2: int| 0 <= m1 < m2 < out@.len() implies byte_len(
                    (#[trigger] out@[m1]).0@,
                ) >= byte_len((#[trigger] out@[m2]).0@) by {
                    assert(s0[m1].0 == out@[m1].0@ && s0[m2].0 == out@[m2].0@);
                }
            }
            let p = insert_by_len(&mut out, rule);
            proof {
                lemma_insert_sound(host@, host_ip, q, i as int, s0, p as int);
                lemma_insert_complete(host@, host_ip, q, i as int, s0, p as int);
                lemma_insert_distinct(host@, host_ip, q, i as int, s0, p as int);
            }
        } else {
            proof {
                reveal(rule_hits);
                lemma_found_skip(host@, host_ip, q, i as int, out@.map_values(|e: (String, u64)| (e.0@, e.1)));
            }
        }
        i += 1;
    }
    proof {
        let s = out@.map_values(|e: (String, u64)| (e.0@, e.1));
        assert(i == q.len());
    }
    out
}

/// Entry `e` comes from one of the first `n` rules, which applies to `host`.
pub open spec fn from_rule(
    host: Seq<char>,
    host_ip: Option<IpAddress>,
    q: Seq<(Seq<char>, u64, Option<IpCidr>)>,
    n: int,
    e: (Seq<char>, u64),
) -> bool {
    exists|i: int| 0 <= i < n && (#[trigger] q[i]).0 == e.0 && q[i].1 == e.1 && rule_hits(host, host_ip, q[i])
}

/// Rule `r`'s pattern and limit are among the entries of `out`.
pub open spec fn listed(out: Seq<(Seq<char>, u64)>, r: (Seq<char>, u64, Option<IpCidr>)) -> bool {
    exists|m: int| 0 <= m < out.len() && (#[trigger] out[m]).0 == r.0 && out[m].1 == r.1
}

/// `out` holds exactly the matching rules among the first `n`, each once,
/// longest pattern first.
pub open spec fn quotas_found_among(
    host: Seq<char>,
    host_ip: Option<IpAddress>,
    q: Seq<(Seq<char>, u64, Option<IpCidr>)>,
    n: int,
    out: Seq<(Seq<char>, u64)>,
) -> bool {
    &&& forall|m: int| 0 <= m < out.len() ==> from_rule(host, host_ip, q, n, #[trigger] out[m])
    &&& forall|i: int| 0 <= i < n && rule_hits(host, host_ip, #[trigger] q[i]) ==> listed(out, q[i])
    &&& forall|m1: int, m2: int|
        0 <= m1 < out.len() && 0 <= m2 < out.len() && m1 != m2 ==> (#[trigger] out[m1]).0 != (
        #[trigger] out[m2]).0
    &&& forall|m1: int, m2: int|
        0 <= m1 < m2 < out.len() ==> byte_len((#[trigger] out[m1]).0) >= byte_len(
            (#[trigger] out[m2]).0,
        )
}

proof fn lemma_found_skip(
    host: Seq<char>,
    host_ip: Option<IpAddress>,
    q: Seq<(Seq<char>, u64, Option<IpCidr>)>,
    n: int,
    out: Seq<(Seq<char>, u64)>,
)
    requires
        0 <= n < q.len(),
        quotas_found_among(host, host_ip, q, n, out),
        !rule_hits(host, host_ip, q[n]),
    ensures
        quotas_found_among(host, host_ip, q, n + 1, out),
{
    assert forall|m: int| 0 <= m < out.len() implies from_rule(host, host_ip, q, n + 1, #[trigger] out[m]) by {
        let i = choose|i: int|
            0 <= i < n && (#[trigger] q[i]).0 == out[m].0 && q[i].1 == out[m].1 && rule_hits(host, host_ip, q[i]);
        assert(q[i].0 == out[m].0);
    }
    assert forall|i: int| 0 <= i < n + 1 && rule_hits(host, host_ip, #[trigger] q[i]) implies listed(out, q[i]) by {
        assert(i != n);
    }
}

proof fn lemma_insert_sound(
    host: Seq<char>,
    host_ip: Option<IpAddress>,
    q: Seq<(Seq<char>, u64, Option<IpCidr>)>,
    n: int,
    s: Seq<(Seq<char>, u64)>,
    p: int,
)
    requires
        0 <= n < q.len(),
        0 <= p <= s.len(),
        quotas_found_among(host, host_ip, q, n, s),
        rule_hits(host, host_ip, q[n]),
    ensures
        forall|m: int|
            0 <= m < s.insert(p, (q[n].0, q[n].1)).len() ==> from_rule(
                host,
                host_ip,
                q,
                n + 1,
                #[trigger] s.insert(p, (q[n].0, q[n].1))[m],
            ),
{
    let s2 = s.insert(p, (q[n].0, q[n].1));
    assert forall|m: int| 0 <= m < s2.len() implies from_rule(host, host_ip, q, n + 1, #[trigger] s2[m]) by {
        if m == p {
            assert(q[n].0 == s2[m].0);
        } else {
            let k = if m < p {
                m
            } else {
                m - 1
            };
            assert(s2[m] == s[k]);
            assert(from_rule(host, host_ip, q, n, s[k]));
            let i = choose|i: int|
                0 <= i < n && (#[trigger] q[i]).0 == s[k].0 && q[i].1 == s[k].1 && rule_hits(host, host_ip, q[i]);
            assert(q[i].0 == s2[m].0);
        }
    }
}

proof fn lemma_insert_complete(
    host: Seq<char>,
    host_ip: Option<IpAddress>,
    q: Seq<(Seq<char>, u64, Option<IpCidr>)>,
    n: int,
    s: Seq<(Seq<char>, u64)>,
    p: int,
)
    requires
        0 <= n < q.len(),
        0 <= p <= s.len(),
        quotas_found_among(host, host_ip, q, n, s),
    ensures
        forall|i: int|
            0 <= i < n + 1 && rule_hits(host, host_ip, #[trigger] q[i]) ==> listed(
                s.insert(p, (q[n].0, q[n].1)),
                q[i],
            ),
{
    let s2 = s.insert(p, (q[n].0, q[n].1));
    assert forall|i: int| 0 <= i < n + 1 && rule_hits(host, host_ip, #[trigger] q[i]) implies listed(s2, q[i]) by {
        if i == n {
            assert(s2[p].0 == q[i].0);
        } else {
            assert(listed(s, q[i]));
            let m = choose|m: int| 0 <= m < s.len() && (#[trigger] s[m]).0 == q[i].0 && s[m].1 == q[i].1;
            if m < p {
                assert(s2[m] == s[m]);
            } else {
                assert(s2[m + 1] == s[m]);
            }
        }
    }
}

proof fn lemma_insert_distinct(
    host: Seq<char>,
    host_ip: Option<IpAddress>,
    q: Seq<(Seq<char>, u64, Option<IpCidr>)>,
    n: int,
    s: Seq<(Seq<char>, u64)>,
    p: int,
)
    requires
        0 <= n < q.len(),
        0 <= p <= s.len(),
        quotas_found_among(host, host_ip, q, n, s),
        forall|a: int, b: int| 0 <= a < q.len() && 0 <= b < q.len() && a != b ==> #[trigger] q[a].0 != #[trigger] q[b].0,
    ensures
        forall|m1: int, m2: int|
            0 <= m1 < s.insert(p, (q[n].0, q[n].1)).len() && 0 <= m2 < s.insert(p, (q[n].0, q[n].1)).len()
                && m1 != m2 ==> (#[trigger] s.insert(p, (q[n].0, q[n].1))[m1]).0 != (#[trigger] s.insert(
                p,
                (q[n].0, q[n].1),
            )[m2]).0,
{
    let s2 = s.insert(p, (q[n].0, q[n].1));
    assert forall|m1: int, m2: int|
        0 <= m1 < s2.len() && 0 <= m2 < s2.len() && m1 != m2 implies (#[trigger] s2[m1]).0 != (
        #[trigger] s2[m2]).0 by {
        if m1 == p || m2 == p {
            let o = if m1 == p {
                m2
            } else {
                m1
            };
            let k = if o < p {
                o
            } else {
                o - 1
            };
            assert(s2[o] == s[k]);
            assert(from_rule(host, host_ip, q, n, s[k]));
            let i = choose|i: int|
                0 <= i < n && (#[trigger] q[i]).0 == s[k].0 && q[i].1 == s[k].1 && rule_hits(host, host_ip, q[i]);
            assert(q[i].0 != q[n].0);
        } else {
            let a = if m1 < p {
                m1
            } else {
                m1 - 1
            };
            let b = if m2 < p {
                m2
            } else {
                m2 - 1
            };
            assert(s2[m1] == s[a] && s2[m2] == s[b]);
        }
    }
}

proof fn lemma_insert_ordered(s: Seq<(Seq<char>, u64)>, x: (Seq<char>, u64), p: int)
    requires
        0 <= p <= s.len(),
        forall|m1: int, m2: int|
            0 <= m1 < m2 < s.len() ==> byte_len((#[trigger] s[m1]).0) >= byte_len((#[trigger] s[m2]).0),
        forall|k: int| 0 <= k < p ==> byte_len((#[trigger] s[k]).0) >= byte_len(x.0),
        p < s.len() ==> byte_len(s[p].0) < byte_len(x.0),
    ensures
        forall|m1: int, m2: int|
            0 <= m1 < m2 < s.insert(p, x).len() ==> byte_len((#[trigger] s.insert(p, x)[m1]).0) >= byte_len(
                (#[trigger] s.insert(p, x)[m2]).0,
            ),
{
    let s2 = s.insert(p, x);
    assert forall|m1: int, m2: int| 0 <= m1 < m2 < s2.len() implies byte_len((#[trigger] s2[m1]).0)
        >= byte_len((#[trigger] s2[m2]).0) by {
        if m1 == p {
            assert(s2[m2] == s[m2 - 1]);
            if m2 - 1 > p {
                assert(byte_len(s[p].0) >= byte_len(s[m2 - 1].0));
            }
        } else if m2 == p {
            assert(s2[m1] == s[m1]);
        } else {
            let a = if m1 < p {
                m1
            } else {
                m1 - 1
            };
            let b = if m2 < p {
                m2
            } else {
                m2 - 1
            };
            assert(s2[m1] == s[a] && s2[m2] == s[b]);
        }
    }
}


/// The broker's destination policy.
#[derive(Debug)]
pub enum BrokerPolicy {
    /// The listed domain patterns only.
    Allowlist(Vec<String>),
    /// The listed domain and port pairs only.
    Strict(Vec<NetRule>),
    /// The listed domain patterns, and others when the user agrees.
    Ask(Vec<String>),
}

/// Everything the broker decides a request by.
#[derive(Debug)]
pub struct BrokerConfig {
    pub policy: BrokerPolicy,
    pub debug_guard: Option<crate::linux::debug_guard::DebugPortGuard>,
    pub mode: RelayMode,
    /// The allowed networks, as read from the policy (texts that do not read
    /// as a network are left out).
    pub allow_cidr: Vec<IpCidr>,
    /// Transfer quotas; no pattern twice.
    pub quotas: Vec<QuotaRule>,
    pub policy_path: Option<String>,
    pub block_doh: bool,
    pub http_proxy: Option<String>,
    pub https_proxy: Option<String>,
    pub no_proxy: Option<String>,
}

/// The first of `s` that is set.
pub open spec fn first_some(s: Seq<Option<String>>) -> Option<String>
    decreases s.len(),
{
    if s.len() == 0 {
        None
    } else if s[0] is Some {
        s[0]
    } else {
        first_some(s.drop_first())
    }
}

/// The first value that is set, in order: how a proxy setting is looked up
/// among its environment variable spellings.
pub fn first_set(candidates: Vec<Option<String>>) -> (r: Option<String>)
    ensures
        r == first_some(candidates@),
{
    let ghost c = candidates@;
    let mut i: usize = 0;
    assert(c.skip(0) =~= c);
    while i < candidates.len()
        invariant
            i <= candidates.len(),
            c == candidates@,
            first_some(c) == first_some(c.skip(i as int)),
        decreases candidates.len() - i,
    {
        assert(c.skip(i as int)[0] == c[i as int]);
        if candidates[i].is_some() {
            return candidates[i].clone();
        }
        assert(c.skip(i as int).drop_first() =~= c.skip(i + 1));
        i += 1;
    }
    assert(c.skip(i as int).len() == 0);
    None
}

/// Known DNS-over-HTTPS endpoints, blocked when DoH blocking is on.
pub open spec fn doh_endpoints() -> Seq<Seq<char>> {
    seq![
        "cloudflare-dns.com"@,
        "dns.google"@,
        "dns.quad9.net"@,
        "1.1.1.1"@,
        "1.0.0.1"@,
        "8.8.8.8"@,
        "8.8.4.4"@,
        "9.9.9.9"@,
    ]
}

/// The normalized host is a DoH endpoint or below one.
pub open spec fn doh_endpoint_host(h: Seq<char>) -> bool {
    exists|i: int|
        0 <= i < doh_endpoints().len() && (h == #[trigger] doh_endpoints()[i] || ends_with(
            h,
            seq!['.'] + doh_endpoints()[i],
        ))
}

fn is_doh_endpoint(h: &[char]) -> (r: bool)
    ensures
        r == doh_endpoint_host(h@),
{
    let list: Vec<&'static str> = vec![
        "cloudflare-dns.com",
        "dns.google",
        "dns.quad9.net",
        "1.1.1.1",
        "1.0.0.1",
        "8.8.8.8",
        "8.8.4.4",
        "9.9.9.9",
    ];
    let ghost d = doh_endpoints();
    assert(list@.len() == d.len());
    assert forall|k: int| 0 <= k < d.len() implies (#[trigger] list@[k])@ == d[k] by {}
    let mut i: usize = 0;
    while i < list.len()
        invariant
            i <= list.len(),
            d == doh_endpoints(),
            list@.len() == d.len(),
            forall|k: int| 0 <= k < d.len() ==> (#[trigger] list@[k])@ == d[k],
            forall|k: int| 0 <= k < i ==> !(h@ == #[trigger] d[k] || ends_with(h@, seq!['.'] + d[k])),
        decreases list.len() - i,
    {
        let e = chars_of(list[i]);
        let dotted = dot_then(e.as_slice());
        if chars_eq(h, e.as_slice()) || chars_ends_with(h, dotted.as_slice()) {
            assert(h@ == d[i as int] || ends_with(h@, seq!['.'] + d[i as int]));
            return true;
        }
        i += 1;
    }
    false
}

/// What the broker answers a request.
#[derive(Debug, Clone, Copy, PartialEq, Eq, Structural)]
pub enum RequestVerdict {
    Allowed,
    Denied,
    /// Denied as an attempt to bypass the resolver through DoH or DoT; the
    /// broker reports it.
    DohBlocked,
    /// The user must be asked first; the answer comes back as `ask_answer`.
    NeedsConfirmation,
}

/// Some quota rule that applies to the host has had its limit reached.
pub open spec fn quota_exhausted(
    host: Seq<char>,
    norm_ip: Option<IpAddress>,
    quotas: Seq<(Seq<char>, u64, Option<IpCidr>)>,
    records: Seq<(Seq<char>, Option<IpAddress>, DomainStats)>,
) -> bool {
    exists|i: int|
        0 <= i < quotas.len() && domain_matches_spec(host, (#[trigger] quotas[i]).0, norm_ip, quotas[i].2)
            && quota_sum(records, quotas[i].0, quotas[i].2) >= quotas[i].1
}

/// An allowed network contains the host's address.
pub open spec fn cidr_allowed(raw_ip: Option<IpAddress>, cidrs: Seq<IpCidr>) -> bool {
    raw_ip is Some && exists|i: int| 0 <= i < cidrs.len() && cidr_contains(#[trigger] cidrs[i], raw_ip->Some_0)
}

/// What the policy itself says of the host, before any question: `Some`
/// answer, or `None` where the user is to be asked.
pub open spec fn policy_answer(host: Seq<char>, port: u16, policy: BrokerPolicy) -> Option<bool> {
    match policy {
        BrokerPolicy::Allowlist(d) => Some(domain_allowed_spec(host, strings_view(d@))),
        BrokerPolicy::Strict(r) => Some(strict_allowed_spec(host, port, r@)),
        BrokerPolicy::Ask(d) => if domain_allowed_spec(host, strings_view(d@)) {
            Some(true)
        } else {
            None
        },
    }
}

/// The broker's decision on a request for `host:port` presenting `token`.
/// `raw_ip` is `host` without brackets read as an address, `norm_ip` its
/// normalized address text (`host_ip_text`) read as one; `cached` is the
/// remembered answer of the user for this host, `ask_answer` a fresh one.
/// In order: a loopback debugger port needs the guard's consent; a reached
/// quota denies; loopback hosts and hosts in an allowed network are
/// explicitly allowed, else the policy decides (asking the user where it
/// says so); with DoH blocking, DoT's port is denied, and so is a known DoH
/// endpoint that was not explicitly allowed.
pub open spec fn request_spec(
    host: Seq<char>,
    port: u16,
    token: Option<Seq<char>>,
    config: BrokerConfig,
    records: Seq<(Seq<char>, Option<IpAddress>, DomainStats)>,
    raw_ip: Option<IpAddress>,
    norm_ip: Option<IpAddress>,
    cached: Option<bool>,
    ask_answer: Option<bool>,
) -> RequestVerdict {
    let guard_denies = loopback_host_spec(host) && (config.debug_guard matches Some(g) && g.access_spec(port, token)
        != crate::linux::debug_guard::DebugPortVerdict::Allowed);
    let explicit = loopback_host_spec(host) || cidr_allowed(raw_ip, config.allow_cidr@);
    let answer = if explicit {
        Some(true)
    } else {
        match policy_answer(host, port, config.policy) {
            Some(b) => Some(b),
            None => if cached is Some {
                cached
            } else {
                ask_answer
            },
        }
    };
    if guard_denies {
        RequestVerdict::Denied
    } else if quota_exhausted(host, norm_ip, quota_view(config.quotas@), records) {
        RequestVerdict::Denied
    } else if answer is None {
        RequestVerdict::NeedsConfirmation
    } else if config.block_doh && port == 853 {
        RequestVerdict::Denied
    } else if config.block_doh && !answer->Some_0 && doh_endpoint_host(host_key(host)) {
        RequestVerdict::DohBlocked
    } else if answer->Some_0 {
        RequestVerdict::Allowed
    } else {
        RequestVerdict::Denied
    }
}

fn any_cidr(raw_ip: Option<IpAddress>, cidrs: &Vec<IpCidr>) -> (r: bool)
    requires
        forall|i: int| 0 <= i < cidrs@.len() ==> cidr_wf(#[trigger] cidrs@[i]),
    ensures
        r == cidr_allowed(raw_ip, cidrs@),
{
    let ip = match raw_ip {
        Some(ip) => ip,
        None => return false,
    };
    let mut i: usize = 0;
    while i < cidrs.len()
        invariant
            i <= cidrs.len(),
            raw_ip == Some(ip),
            forall|k: int| 0 <= k < cidrs@.len() ==> cidr_wf(#[trigger] cidrs@[k]),
            forall|k: int| 0 <= k < i ==> !cidr_contains(#[trigger] cidrs@[k], ip),
        decreases cidrs.len() - i,
    {
        if cidrs[i].contains(ip) {
            return true;
        }
        i += 1;
    }
    false
}

fn quota_reached(
    host: &str,
    norm_ip: Option<IpAddress>,
    quotas: &Vec<QuotaRule>,
    stats: &TransferStats,
) -> (r: bool)
    requires
        forall|i: int| 0 <= i < quotas@.len() ==> ((#[trigger] quotas@[i]).cidr matches Some(c) ==> cidr_wf(c)),
    ensures
        r == quota_exhausted(host@, norm_ip, quota_view(quotas@), stats.records()),
{
    let ghost q = quota_view(quotas@);
    let mut i: usize = 0;
    while i < quotas.len()
        invariant
            i <= quotas.len(),
            q == quota_view(quotas@),
            forall|k: int| 0 <= k < quotas@.len() ==> ((#[trigger] quotas@[k]).cidr matches Some(c) ==> cidr_wf(c)),
            forall|k: int|
                0 <= k < i ==> !(domain_matches_spec(host@, (#[trigger] q[k]).0, norm_ip, q[k].2)
                    && quota_sum(stats.records(), q[k].0, q[k].2) >= q[k].1),
        decreases quotas.len() - i,
    {
        let rule = &quotas[i];
        assert(q[i as int] == (rule.pattern@, rule.limit, rule.cidr));
        if domain_matches_pattern(host, rule.pattern.as_str(), norm_ip, rule.cidr) {
            let used = stats.get_quota_bytes(rule.pattern.as_str(), rule.cidr);
            if used >= rule.limit {
                return true;
            }
        }
        i += 1;
    }
    false
}

/// Decides a request (see `request_spec`). Where `NeedsConfirmation` comes
/// back, the caller asks the user, remembers the answer, and asks again
/// with it.
pub fn request_allowed(
    host: &str,
    port: u16,
    token: Option<&str>,
    config: &BrokerConfig,
    stats: &TransferStats,
    raw_ip: Option<IpAddress>,
    norm_ip: Option<IpAddress>,
    cached: Option<bool>,
    ask_answer: Option<bool>,
) -> (v: RequestVerdict)
    requires
        forall|i: int| 0 <= i < config.allow_cidr@.len() ==> cidr_wf(#[trigger] config.allow_cidr@[i]),
        forall|i: int| 0 <= i < config.quotas@.len() ==> ((#[trigger] config.quotas@[i]).cidr matches Some(c) ==> cidr_wf(c)),
    ensures
        v == request_spec(
            host@,
            port,
            match token {
                Some(t) => Some(t@),
                None => None,
            },
            *config,
            stats.records(),
            raw_ip,
            norm_ip,
            cached,
            ask_answer,
        ),
{
    let loopback = is_loopback_host(host);
    if loopback {
        if let Some(g) = &config.debug_guard {
            match g.check_access(port, token) {
                crate::linux::debug_guard::DebugPortVerdict::Allowed => {},
                _ => return RequestVerdict::Denied,
            }
        }
    }
    if quota_reached(host, norm_ip, &config.quotas, stats) {
        return RequestVerdict::Denied;
    }
    let explicit = loopback || any_cidr(raw_ip, &config.allow_cidr);
    let answer: Option<bool> = if explicit {
        Some(true)
    } else {
        match &config.policy {
            BrokerPolicy::Allowlist(d) => Some(domain_allowed(host, d.as_slice())),
            BrokerPolicy::Strict(r) => Some(strict_allowed(host, port, r.as_slice())),
            BrokerPolicy::Ask(d) => {
                if domain_allowed(host, d.as_slice()) {
                    Some(true)
                } else if cached.is_some() {
                    cached
                } else {
                    ask_answer
                }
            },
        }
    };
    let allowed = match answer {
        None => return RequestVerdict::NeedsConfirmation,
        Some(b) => b,
    };
    if config.block_doh {
        if port == 853 {
            return RequestVerdict::Denied;
        }
        if !allowed {
            let h = host_key_of(host);
            if is_doh_endpoint(h.as_slice()) {
                return RequestVerdict::DohBlocked;
            }
        }
    }
    if allowed {
        RequestVerdict::Allowed
    } else {
        RequestVerdict::Denied
    }
}

/// A `NO_PROXY` entry as compared: trimmed, without leading or trailing
/// dots, ASCII lower case.
pub open spec fn no_proxy_item(s: Seq<char>) -> Seq<char> {
    lower_chars(trim_end_char(trim_start_char(trim_ws(s), '.'), '.'))
}

/// Some `NO_PROXY` entry exempts the normalized host: `*`, the host itself,
/// or a domain above it.
pub open spec fn no_proxy_exempts(h: Seq<char>, items: Seq<Seq<char>>) -> bool {
    exists|i: int|
        0 <= i < items.len() && no_proxy_item(#[trigger] items[i]).len() > 0 && (no_proxy_item(items[i])
            == seq!['*'] || h == no_proxy_item(items[i]) || ends_with(h, seq!['.'] + no_proxy_item(items[i])))
}

/// The upstream proxy for `host:port`: none where `NO_PROXY` exempts the
/// host, else the HTTPS proxy for port 443 and the HTTP proxy otherwise.
pub open spec fn upstream_spec(host: Seq<char>, port: u16, config: BrokerConfig) -> Option<Seq<char>> {
    if config.no_proxy matches Some(np) && no_proxy_exempts(host_key(host), split_on(np@, ',')) {
        None
    } else if port == 443 {
        opt_chars(config.https_proxy)
    } else {
        opt_chars(config.http_proxy)
    }
}

/// The upstream proxy a request is sent through, if any.
pub fn get_upstream_proxy(host: &str, port: u16, config: &BrokerConfig) -> (r: Option<String>)
    ensures
        opt_chars(r) == upstream_spec(host@, port, *config),
{
    if let Some(np) = &config.no_proxy {
        let h = host_key_of(host);
        let cs = chars_of(np.as_str());
        let items = split_chars(cs.as_slice(), ',');
        let ghost iv = seqs_of(items@);
        let star = vec!['*'];
        assert(star@ =~= seq!['*']);
        let mut i: usize = 0;
        while i < items.len()
            invariant
                i <= items.len(),
                iv == seqs_of(items@),
                iv == split_on(np@, ','),
                star@ == seq!['*'],
                h@ == host_key(host@),
                config.no_proxy == Some(*np),
                forall|k: int| 0 <= k < i ==> !(no_proxy_item(#[trigger] iv[k]).len() > 0 && (no_proxy_item(iv[k])
                    == seq!['*'] || h@ == no_proxy_item(iv[k]) || ends_with(h@, seq!['.'] + no_proxy_item(iv[k])))),
            decreases items.len() - i,
        {
            assert(iv[i as int] == items@[i as int]@);
            let t = trim(items[i].as_slice());
            let a = trim_start_matches(t.as_slice(), '.');
            let b = trim_end_matches(a.as_slice(), '.');
            let item = to_ascii_lowercase(b.as_slice());
            assert(item@ == no_proxy_item(iv[i as int]));
            if item.len() > 0 {
                let dotted = dot_then(item.as_slice());
                if chars_eq(item.as_slice(), star.as_slice()) || chars_eq(h.as_slice(), item.as_slice())
                    || chars_ends_with(h.as_slice(), dotted.as_slice()) {
                    assert(no_proxy_exempts(h@, iv));
                    return None;
                }
            }
            i += 1;
        }
    }
    if port == 443 {
        match &config.https_proxy {
            Some(p) => Some(p.clone()),
            None => None,
        }
    } else {
        match &config.http_proxy {
            Some(p) => Some(p.clone()),
            None => None,
        }
    }
}


/// Port of DNS over TLS.
pub const DOT_PORT: u16 = 853;

/// Domains of known DoH and DoT resolvers.
pub open spec fn doh_dot_domains() -> Seq<Seq<char>> {
    seq![
        "cloudflare-dns.com"@,
        "one.one.one.one"@,
        "mozilla.cloudflare-dns.com"@,
        "dns.cloudflare.com"@,
        "dns.google"@,
        "dns.google.com"@,
        "dns.quad9.net"@,
        "doh.opendns.com"@,
        "dns.adguard-dns.com"@,
        "unfiltered.adguard-dns.com"@,
        "freedns.controld.com"@,
        "dns.nextdns.io"@,
    ]
}

/// IPv4 addresses of known DoH and DoT resolvers.
pub open spec fn doh_dot_v4() -> Seq<Seq<u8>> {
    seq![
        seq![1u8, 1, 1, 1],
        seq![1u8, 0, 0, 1],
        seq![8u8, 8, 8, 8],
        seq![8u8, 8, 4, 4],
        seq![9u8, 9, 9, 9],
        seq![149u8, 112, 112, 112],
        seq![208u8, 67, 222, 222],
        seq![208u8, 67, 220, 220],
        seq![94u8, 140, 14, 14],
        seq![94u8, 140, 15, 15],
        seq![76u8, 76, 2, 0],
        seq![76u8, 76, 10, 0],
    ]
}

/// IPv6 addresses of known DoH and DoT resolvers, by octets.
pub open spec fn doh_dot_v6() -> Seq<Seq<u8>> {
    seq![
        seq![0x26u8, 0x06, 0x47, 0x00, 0x47, 0x00, 0, 0, 0, 0, 0, 0, 0, 0, 0x11, 0x11],
        seq![0x26u8, 0x06, 0x47, 0x00, 0x47, 0x00, 0, 0, 0, 0, 0, 0, 0, 0, 0x10, 0x01],
        seq![0x20u8, 0x01, 0x48, 0x60, 0x48, 0x60, 0, 0, 0, 0, 0, 0, 0, 0, 0x88, 0x88],
        seq![0x20u8, 0x01, 0x48, 0x60, 0x48, 0x60, 0, 0, 0, 0, 0, 0, 0, 0, 0x88, 0x44],
        seq![0x26u8, 0x20, 0x00, 0xfe, 0, 0, 0, 0, 0, 0, 0, 0, 0, 0, 0x00, 0xfe],
        seq![0x26u8, 0x20, 0x00, 0xfe, 0, 0, 0, 0, 0, 0, 0, 0, 0, 0, 0x00, 0x09],
        seq![0x26u8, 0x20, 0x01, 0x19, 0x00, 0x35, 0, 0, 0, 0, 0, 0, 0, 0, 0x00, 0x35],
        seq![0x26u8, 0x20, 0x01, 0x19, 0x00, 0x53, 0, 0, 0, 0, 0, 0, 0, 0, 0x00, 0x53],
        seq![0x2au8, 0x10, 0x50, 0xc0, 0, 0, 0, 0, 0, 0, 0, 0, 0x0a, 0xd1, 0x00, 0xff],
        seq![0x2au8, 0x10, 0x50, 0xc0, 0, 0, 0, 0, 0, 0, 0, 0, 0x0a, 0xd2, 0x00, 0xff],
    ]
}

/// Whether an address is one of the known resolvers.
pub open spec fn doh_dot_ip(ip: IpAddress) -> bool {
    match ip {
        IpAddress::V4(o) => doh_dot_v4().contains(o@),
        IpAddress::V6(o) => doh_dot_v6().contains(o@),
    }
}

/// Whether a request looks like DNS over HTTPS or TLS: DoT's port, a known
/// resolver's domain or a subdomain of one, or a known resolver's address
/// (the host read as an address, `host_ip`, or the address it resolved
/// to, `ip`).
pub open spec fn doh_or_dot_spec(host: Seq<char>, port: u16, ip: Option<IpAddress>, host_ip: Option<IpAddress>) -> bool {
    let h = host_key(host);
    port == DOT_PORT || (exists|i: int|
        0 <= i < doh_dot_domains().len() && (h == #[trigger] doh_dot_domains()[i] || ends_with(
            h,
            seq!['.'] + doh_dot_domains()[i],
        ))) || (host_ip matches Some(a) && doh_dot_ip(a)) || (ip matches Some(a) && doh_dot_ip(a))
}

fn octets_in(o: &[u8], table: &Vec<Vec<u8>>, Ghost(t): Ghost<Seq<Seq<u8>>>) -> (r: bool)
    requires
        table@.len() == t.len(),
        forall|k: int| 0 <= k < t.len() ==> (#[trigger] table@[k])@ == t[k],
    ensures
        r == t.contains(o@),
{
    let mut i: usize = 0;
    while i < table.len()
        invariant
            i <= table.len(),
            table@.len() == t.len(),
            forall|k: int| 0 <= k < t.len() ==> (#[trigger] table@[k])@ == t[k],
            forall|k: int| 0 <= k < i ==> t[k] != o@,
        decreases table.len() - i,
    {
        if crate::text::bytes_eq(table[i].as_slice(), o) {
            assert(t[i as int] == o@);
            return true;
        }
        i += 1;
    }
    false
}

fn is_resolver_ip(ip: IpAddress) -> (r: bool)
    ensures
        r == doh_dot_ip(ip),
{
    match ip {
        IpAddress::V4(o) => {
            let table: Vec<Vec<u8>> = vec![
                vec![1u8, 1, 1, 1],
                vec![1u8, 0, 0, 1],
                vec![8u8, 8, 8, 8],
                vec![8u8, 8, 4, 4],
                vec![9u8, 9, 9, 9],
                vec![149u8, 112, 112, 112],
                vec![208u8, 67, 222, 222],
                vec![208u8, 67, 220, 220],
                vec![94u8, 140, 14, 14],
                vec![94u8, 140, 15, 15],
                vec![76u8, 76, 2, 0],
                vec![76u8, 76, 10, 0],
            ];
            let ghost t = doh_dot_v4();
            assert forall|k: int| 0 <= k < t.len() implies (#[trigger] table@[k])@ == t[k] by {
                assert(table@[k]@ =~= t[k]);
            }
            octets_in(&o, &table, Ghost(t))
        },
        IpAddress::V6(o) => {
            let table: Vec<Vec<u8>> = vec![
                vec![0x26u8, 0x06, 0x47, 0x00, 0x47, 0x00, 0, 0, 0, 0, 0, 0, 0, 0, 0x11, 0x11],
                vec![0x26u8, 0x06, 0x47, 0x00, 0x47, 0x00, 0, 0, 0, 0, 0, 0, 0, 0, 0x10, 0x01],
                vec![0x20u8, 0x01, 0x48, 0x60, 0x48, 0x60, 0, 0, 0, 0, 0, 0, 0, 0, 0x88, 0x88],
                vec![0x20u8, 0x01, 0x48, 0x60, 0x48, 0x60, 0, 0, 0, 0, 0, 0, 0, 0, 0x88, 0x44],
                vec![0x26u8, 0x20, 0x00, 0xfe, 0, 0, 0, 0, 0, 0, 0, 0, 0, 0, 0x00, 0xfe],
                vec![0x26u8, 0x20, 0x00, 0xfe, 0, 0, 0, 0, 0, 0, 0, 0, 0, 0, 0x00, 0x09],
                vec![0x26u8, 0x20, 0x01, 0x19, 0x00, 0x35, 0, 0, 0, 0, 0, 0, 0, 0, 0x00, 0x35],
                vec![0x26u8, 0x20, 0x01, 0x19, 0x00, 0x53, 0, 0, 0, 0, 0, 0, 0, 0, 0x00, 0x53],
                vec![0x2au8, 0x10, 0x50, 0xc0, 0, 0, 0, 0, 0, 0, 0, 0, 0x0a, 0xd1, 0x00, 0xff],
                vec![0x2au8, 0x10, 0x50, 0xc0, 0, 0, 0, 0, 0, 0, 0, 0, 0x0a, 0xd2, 0x00, 0xff],
            ];
            let ghost t = doh_dot_v6();
            assert forall|k: int| 0 <= k < t.len() implies (#[trigger] table@[k])@ == t[k] by {
                assert(table@[k]@ =~= t[k]);
            }
            octets_in(&o, &table, Ghost(t))
        },
    }
}

/// Whether a request looks like DNS over HTTPS or TLS.
pub fn is_doh_or_dot(host: &str, port: u16, ip: Option<IpAddress>, host_ip: Option<IpAddress>) -> (r: bool)
    ensures
        r == doh_or_dot_spec(host@, port, ip, host_ip),
{
    if port == DOT_PORT {
        return true;
    }
    let h = host_key_of(host);
    let list: Vec<&'static str> = vec![
        "cloudflare-dns.com",
        "one.one.one.one",
        "mozilla.cloudflare-dns.com",
        "dns.cloudflare.com",
        "dns.google",
        "dns.google.com",
        "dns.quad9.net",
        "doh.opendns.com",
        "dns.adguard-dns.com",
        "unfiltered.adguard-dns.com",
        "freedns.controld.com",
        "dns.nextdns.io",
    ];
    let ghost d = doh_dot_domains();
    assert(list@.len() == d.len());
    let mut i: usize = 0;
    while i < list.len()
        invariant
            i <= list.len(),
            d == doh_dot_domains(),
            h@ == host_key(host@),
            list@.len() == d.len(),
            forall|k: int| 0 <= k < d.len() ==> (#[trigger] list@[k])@ == d[k],
            forall|k: int| 0 <= k < i ==> !(h@ == #[trigger] d[k] || ends_with(h@, seq!['.'] + d[k])),
        decreases list.len() - i,
    {
        let e = chars_of(list[i]);
        let dotted = dot_then(e.as_slice());
        if chars_eq(h.as_slice(), e.as_slice()) || chars_ends_with(h.as_slice(), dotted.as_slice()) {
            assert(h@ == d[i as int] || ends_with(h@, seq!['.'] + d[i as int]));
            return true;
        }
        i += 1;
    }
    if let Some(a) = host_ip {
        if is_resolver_ip(a) {
            return true;
        }
    }
    if let Some(a) = ip {
        if is_resolver_ip(a) {
            return true;
        }
    }
    false
}

/// Checks a tunnel's traffic against its quotas after a chunk was moved:
/// the first quota whose earlier bytes plus this tunnel's exceed its limit,
/// with that total (the tunnel is then cut), or `None` to go on.
pub fn quota_breach(used: &[(String, u64, u64)], transfer_now: u64) -> (r: Option<(String, u64, u64)>)
    requires
        forall|i: int| 0 <= i < used@.len() ==> used@[i].2 + transfer_now <= u64::MAX,
    ensures
        match r {
            None => forall|i: int| 0 <= i < used@.len() ==> used@[i].2 + transfer_now <= used@[i].1,
            Some((pattern, limit, total)) => exists|i: int|
                0 <= i < used@.len() && pattern@ == used@[i].0@ && limit == used@[i].1 && total
                    == used@[i].2 + transfer_now && total > limit && forall|k: int|
                    0 <= k < i ==> used@[k].2 + transfer_now <= used@[k].1,
        },
{
    let mut i: usize = 0;
    while i < used.len()
        invariant
            i <= used.len(),
            forall|k: int| 0 <= k < used@.len() ==> used@[k].2 + transfer_now <= u64::MAX,
            forall|k: int| 0 <= k < i ==> used@[k].2 + transfer_now <= used@[k].1,
        decreases used.len() - i,
    {
        let total = used[i].2 + transfer_now;
        if total > used[i].1 {
            let pattern = string_of(chars_of(used[i].0.as_str()).as_slice());
            return Some((pattern, used[i].1, total));
        }
        i += 1;
    }
    None
}

/// Whether an address is a loopback address (`127.0.0.0/8`, `::1`).
pub open spec fn ip_is_loopback(ip: IpAddress) -> bool {
    match ip {
        IpAddress::V4(o) => o@[0] == 127,
        IpAddress::V6(o) => o@ == loopback_v6(),
    }
}

/// `::1`.
pub open spec fn loopback_v6() -> Seq<u8> {
    Seq::new(16, |i: int| if i == 15 {
        1u8
    } else {
        0u8
    })
}

fn is_loopback_ip(ip: IpAddress) -> (r: bool)
    ensures
        r == ip_is_loopback(ip),
{
    match ip {
        IpAddress::V4(o) => o[0] == 127,
        IpAddress::V6(o) => {
            let mut i: usize = 0;
            while i < 16
                invariant
                    i <= 16,
                    ip == IpAddress::V6(o),
                    forall|k: int| 0 <= k < i ==> o@[k] == loopback_v6()[k],
                decreases 16 - i,
            {
                let want: u8 = if i == 15 {
                    1
                } else {
                    0
                };
                if o[i] != want {
                    assert(o@[i as int] != loopback_v6()[i as int]);
                    return false;
                }
                i += 1;
            }
            assert(o@ =~= loopback_v6());
            true
        },
    }
}

/// Whether one resolved address of a request must not be reached: a DoH or
/// DoT resolver, or a forbidden destination that is neither the loopback
/// answer of a loopback host nor inside an explicitly allowed network.
pub open spec fn answer_forbidden(
    host: Seq<char>,
    port: u16,
    host_ip: Option<IpAddress>,
    addr: IpAddress,
    cidrs: Seq<IpCidr>,
) -> bool {
    doh_or_dot_spec(host, port, Some(addr), host_ip) || (!((loopback_host_spec(host) && ip_is_loopback(addr))
        || exists|c: int| 0 <= c < cidrs.len() && cidr_contains(#[trigger] cidrs[c], addr))
        && forbidden_destination_spec(addr))
}

/// A forbidden destination, by family.
pub open spec fn forbidden_destination_spec(ip: IpAddress) -> bool {
    match ip {
        IpAddress::V4(o) => ipv4_forbidden(o@[0], o@[1], o@[2], o@[3]),
        IpAddress::V6(o) => ipv6_forbidden(o@),
    }
}

/// Whether the broker refuses a request because of what its host resolved
/// to: one forbidden answer refuses it all.
pub fn resolution_forbidden(
    host: &str,
    port: u16,
    host_ip: Option<IpAddress>,
    answers: &[IpAddress],
    cidrs: &[IpCidr],
) -> (r: bool)
    requires
        forall|c: int| 0 <= c < cidrs@.len() ==> cidr_wf(#[trigger] cidrs@[c]),
    ensures
        r == exists|i: int| 0 <= i < answers@.len() && answer_forbidden(host@, port, host_ip, #[trigger] answers@[i], cidrs@),
{
    let mut i: usize = 0;
    while i < answers.len()
        invariant
            i <= answers.len(),
            forall|c: int| 0 <= c < cidrs@.len() ==> cidr_wf(#[trigger] cidrs@[c]),
            forall|k: int| 0 <= k < i ==> !answer_forbidden(host@, port, host_ip, #[trigger] answers@[k], cidrs@),
        decreases answers.len() - i,
    {
        let addr = answers[i];
        let mut bad = is_doh_or_dot(host, port, Some(addr), host_ip);
        if !bad {
            let mut exempt = is_loopback_host(host) && is_loopback_ip(addr);
            let mut c: usize = 0;
            while !exempt && c < cidrs.len()
                invariant
                    c <= cidrs.len(),
                    forall|k: int| 0 <= k < cidrs@.len() ==> cidr_wf(#[trigger] cidrs@[k]),
                    exempt ==> ((loopback_host_spec(host@) && ip_is_loopback(addr)) || exists|k: int|
                        0 <= k < cidrs@.len() && cidr_contains(#[trigger] cidrs@[k], addr)),
                    !exempt ==> !(loopback_host_spec(host@) && ip_is_loopback(addr)) && forall|k: int|
                        0 <= k < c ==> !cidr_contains(#[trigger] cidrs@[k], addr),
                decreases cidrs.len() - c,
            {
                if cidrs[c].contains(addr) {
                    exempt = true;
                }
                c += 1;
            }
            bad = !exempt && forbidden_destination(addr);
        }
        if bad {
            return true;
        }
        i += 1;
    }
    false
}

/// The host a broker request names, trimmed and without trailing dots;
/// `None` when nothing is left or it holds ASCII white space.
pub open spec fn broker_host_spec(host: Seq<char>) -> Option<Seq<char>> {
    let h = trim_end_char(trim_ws(host), '.');
    if h.len() == 0 || exists|i: int| 0 <= i < h.len() && is_ascii_ws(#[trigger] h[i]) {
        None
    } else {
        Some(h)
    }
}

/// ASCII white space as `u8::is_ascii_whitespace` tests it (CR and LF
/// included).
pub open spec fn is_ascii_ws(c: char) -> bool {
    c == ' ' || c == '\t' || c == '\n' || c == '\x0C' || c == '\r'
}

/// Normalises the host of a broker request.
pub fn broker_host(host: &str) -> (r: Option<String>)
    ensures
        match r {
            Some(h) => broker_host_spec(host@) == Some(h@),
            None => broker_host_spec(host@) is None,
        },
{
    let cs = chars_of(host);
    let t = trim(cs.as_slice());
    let h = trim_end_matches(t.as_slice(), '.');
    if h.len() == 0 {
        return None;
    }
    let mut i: usize = 0;
    while i < h.len()
        invariant
            i <= h.len(),
            h@ == trim_end_char(trim_ws(host@), '.'),
            forall|k: int| 0 <= k < i ==> !is_ascii_ws(#[trigger] h@[k]),
        decreases h.len() - i,
    {
        let c = h[i];
        if c == ' ' || c == '\t' || c == '\n' || c == '\x0C' || c == '\r' {
            assert(is_ascii_ws(h@[i as int]));
            return None;
        }
        i += 1;
    }
    Some(string_of(h.as_slice()))
}

} // verus!
