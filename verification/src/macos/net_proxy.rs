//! The macOS local broker's policy: which host names are acceptable DNS
//! names, which addresses may never be reached, and the pinning of each
//! authorized connection to the address the broker itself resolved.
use vstd::prelude::*;
use crate::backend::NetMode;
use crate::linux::net_relay::{IpAddress, NetRule};
use crate::text::{
    all_digits, chars_eq, chars_ends_with, chars_of, digits_value, ends_with, is_digit, is_ws,
    lower_chars, parse_u64, seqs_of, split_chars, split_on, string_of, to_ascii_lowercase,
    trim_end_char, trim_end_matches,
};

verus! {

/// Why a host name is refused.
#[derive(Debug, Clone, Copy, PartialEq, Eq, Structural)]
pub enum HostError {
    /// Empty, or holding NUL or white space.
    Blank,
    /// Nothing left after the trailing dots, or URL or user-info syntax.
    UrlSyntax,
    /// Not ASCII, longer than 253, or an IP literal.
    NotDnsName,
    /// A label that is empty, longer than 63, starts or ends with `-`, or
    /// holds anything but ASCII letters, digits and `-`.
    BadLabel,
}

impl HostError {
    /// The message shown for the refusal.
    pub fn message(&self) -> (m: &'static str)
        ensures
            m@ == match self {
                HostError::Blank => "host is empty, contains NUL, or contains whitespace"@,
                HostError::UrlSyntax => "host contains unsupported URL/userinfo syntax"@,
                HostError::NotDnsName => "host must be an ASCII DNS name, not an IP literal"@,
                HostError::BadLabel => "host contains an invalid DNS label"@,
            },
    {
        match self {
            HostError::Blank => "host is empty, contains NUL, or contains whitespace",
            HostError::UrlSyntax => "host contains unsupported URL/userinfo syntax",
            HostError::NotDnsName => "host must be an ASCII DNS name, not an IP literal",
            HostError::BadLabel => "host contains an invalid DNS label",
        }
    }
}

/// One dotted-quad part as `Ipv4Addr::from_str` reads it: one to three
/// digits, no leading zero, at most 255.
pub open spec fn octet_text(p: Seq<char>) -> bool {
    1 <= p.len() <= 3 && all_digits(p) && (p.len() == 1 || p[0] != '0') && digits_value(p) <= 255
}

/// `s` reads as an IPv4 address.
pub open spec fn ipv4_literal(s: Seq<char>) -> bool {
    let parts = split_on(s, '.');
    parts.len() == 4 && forall|i: int| 0 <= i < 4 ==> octet_text(#[trigger] parts[i])
}

/// An ASCII letter or digit, or `-`.
pub open spec fn label_char(c: char) -> bool {
    ('a' <= c <= 'z') || ('A' <= c <= 'Z') || is_digit(c) || c == '-'
}

/// A DNS label the broker accepts.
pub open spec fn label_ok(l: Seq<char>) -> bool {
    &&& 1 <= l.len() <= 63
    &&& l[0] != '-'
    &&& l.last() != '-'
    &&& forall|i: int| 0 <= i < l.len() ==> label_char(#[trigger] l[i])
}

/// Every character is ASCII.
pub open spec fn all_ascii(s: Seq<char>) -> bool {
    forall|i: int| 0 <= i < s.len() ==> (#[trigger] s[i] as u32) < 128
}

/// The host as the broker keeps it, or why it is refused. `v6_literal`
/// says whether the dot-trimmed, lower-cased host reads as an IPv6 address.
pub open spec fn normalize_spec(host: Seq<char>, v6_literal: bool) -> Result<Seq<char>, HostError> {
    if host.len() == 0 || host.contains('\0') || exists|i: int| 0 <= i < host.len() && is_ws(#[trigger] host[i]) {
        Err(HostError::Blank)
    } else {
        let h = lower_chars(trim_end_char(host, '.'));
        if h.len() == 0 || h.contains('@') || h.contains('/') || h.contains('\\') {
            Err(HostError::UrlSyntax)
        } else if !all_ascii(h) || h.len() > 253 || ipv4_literal(h) || v6_literal {
            Err(HostError::NotDnsName)
        } else if !(forall|i: int| 0 <= i < split_on(h, '.').len() ==> label_ok(#[trigger] split_on(h, '.')[i])) {
            Err(HostError::BadLabel)
        } else {
            Ok(h)
        }
    }
}

fn octet_ok(p: &[char]) -> (r: bool)
    ensures
        r == octet_text(p@),
{
    if p.len() < 1 || p.len() > 3 {
        return false;
    }
    if p.len() > 1 && p[0] == '0' {
        return false;
    }
    let mut i: usize = 0;
    while i < p.len()
        invariant
            i <= p.len(),
            forall|k: int| 0 <= k < i ==> is_digit(#[trigger] p@[k]),
        decreases p.len() - i,
    {
        if !('0' <= p[i] && p[i] <= '9') {
            return false;
        }
        i += 1;
    }
    proof {
        assert(crate::text::unsigned_digits(p@) == p@);
        crate::text::lemma_digits_value_nonneg(p@);
    }
    match parse_u64(p) {
        Some(v) => v <= 255,
        None => false,
    }
}

fn is_ipv4_literal(s: &[char]) -> (r: bool)
    ensures
        r == ipv4_literal(s@),
{
    let parts = split_chars(s, '.');
    if parts.len() != 4 {
        return false;
    }
    let mut i: usize = 0;
    while i < 4
        invariant
            i <= 4,
            parts.len() == 4,
            seqs_of(parts@) == split_on(s@, '.'),
            forall|k: int| 0 <= k < i ==> octet_text(#[trigger] split_on(s@, '.')[k]),
        decreases 4 - i,
    {
        assert(split_on(s@, '.')[i as int] == parts@[i as int]@);
        if !octet_ok(parts[i].as_slice()) {
            return false;
        }
        i += 1;
    }
    true
}

fn label_valid(l: &[char]) -> (r: bool)
    ensures
        r == label_ok(l@),
{
    if l.len() < 1 || l.len() > 63 || l[0] == '-' || l[l.len() - 1] == '-' {
        return false;
    }
    let mut i: usize = 0;
    while i < l.len()
        invariant
            i <= l.len(),
            forall|k: int| 0 <= k < i ==> label_char(#[trigger] l@[k]),
        decreases l.len() - i,
    {
        let c = l[i];
        if !(('a' <= c && c <= 'z') || ('A' <= c && c <= 'Z') || ('0' <= c && c <= '9') || c == '-') {
            return false;
        }
        i += 1;
    }
    true
}

fn has_char(s: &[char], c: char) -> (r: bool)
    ensures
        r == s@.contains(c),
{
    let mut i: usize = 0;
    while i < s.len()
        invariant
            i <= s.len(),
            forall|k: int| 0 <= k < i ==> s@[k] != c,
        decreases s.len() - i,
    {
        if s[i] == c {
            return true;
        }
        i += 1;
    }
    false
}

/// Checks and normalizes a host name (dot-trimmed, ASCII lower case).
/// `v6_literal` says whether that normalized text reads as an IPv6 address.
pub fn normalize_host(host: &str, v6_literal: bool) -> (r: Result<String, HostError>)
    ensures
        match r {
            Ok(h) => normalize_spec(host@, v6_literal) == Ok::<Seq<char>, HostError>(h@),
            Err(e) => normalize_spec(host@, v6_literal) == Err::<Seq<char>, HostError>(e),
        },
{
    let cs = chars_of(host);
    if cs.len() == 0 || has_char(cs.as_slice(), '\0') {
        return Err(HostError::Blank);
    }
    let mut i: usize = 0;
    while i < cs.len()
        invariant
            i <= cs.len(),
            cs@ == host@,
            forall|k: int| 0 <= k < i ==> !is_ws(#[trigger] cs@[k]),
        decreases cs.len() - i,
    {
        if crate::text::is_whitespace(cs[i]) {
            return Err(HostError::Blank);
        }
        i += 1;
    }
    let t = trim_end_matches(cs.as_slice(), '.');
    let h = to_ascii_lowercase(t.as_slice());
    if h.len() == 0 || has_char(h.as_slice(), '@') || has_char(h.as_slice(), '/') || has_char(
        h.as_slice(),
        '\\',
    ) {
        return Err(HostError::UrlSyntax);
    }
    let mut j: usize = 0;
    let mut ascii = true;
    while j < h.len()
        invariant
            j <= h.len(),
            ascii == forall|k: int| 0 <= k < j ==> (#[trigger] h@[k] as u32) < 128,
        decreases h.len() - j,
    {
        if (h[j] as u32) >= 128 {
            ascii = false;
        }
        j += 1;
    }
    if !ascii || h.len() > 253 || is_ipv4_literal(h.as_slice()) || v6_literal {
        return Err(HostError::NotDnsName);
    }
    let labels = split_chars(h.as_slice(), '.');
    let ghost labels_all = forall|m: int| 0 <= m < split_on(h@, '.').len() ==> label_ok(#[trigger] split_on(h@, '.')[m]);
    assert(normalize_spec(host@, v6_literal) == if labels_all {
        Ok::<Seq<char>, HostError>(h@)
    } else {
        Err(HostError::BadLabel)
    });
    let mut k: usize = 0;
    while k < labels.len()
        invariant
            k <= labels.len(),
            seqs_of(labels@) == split_on(h@, '.'),
            labels_all == forall|m: int| 0 <= m < split_on(h@, '.').len() ==> label_ok(#[trigger] split_on(h@, '.')[m]),
            normalize_spec(host@, v6_literal) == if labels_all {
                Ok::<Seq<char>, HostError>(h@)
            } else {
                Err(HostError::BadLabel)
            },
            forall|m: int| 0 <= m < k ==> label_ok(#[trigger] split_on(h@, '.')[m]),
        decreases labels.len() - k,
    {
        assert(split_on(h@, '.')[k as int] == labels@[k as int]@);
        if !label_valid(labels[k].as_slice()) {
            assert(!label_ok(split_on(h@, '.')[k as int]));
            return Err(HostError::BadLabel);
        }
        k += 1;
    }
    Ok(string_of(h.as_slice()))
}

/// Whether a normalized host falls under a configured domain: equal to it,
/// or below it; a configured domain that is no acceptable name matches
/// nothing.
pub open spec fn host_matches_spec(host: Seq<char>, configured: Seq<char>) -> bool {
    match normalize_spec(configured, false) {
        Ok(c) => host == c || ends_with(host, seq!['.'] + c),
        Err(_) => false,
    }
}

/// Whether `host` falls under the configured domain.
pub fn host_matches(host: &str, configured: &str) -> (r: bool)
    ensures
        r == host_matches_spec(host@, configured@),
{
    match normalize_host(configured, false) {
        Ok(c) => {
            let h = chars_of(host);
            let cc = chars_of(c.as_str());
            let mut dotted: Vec<char> = Vec::new();
            dotted.push('.');
            crate::text::append_chars(&mut dotted, cc.as_slice());
            assert(dotted@ =~= seq!['.'] + c@);
            chars_eq(h.as_slice(), cc.as_slice()) || chars_ends_with(h.as_slice(), dotted.as_slice())
        },
        Err(_) => false,
    }
}

/// An IPv4 address no pinned connection may reach: unspecified, loopback,
/// private, link-local, multicast, broadcast, `0/8`, shared address space,
/// the IETF, documentation and benchmarking ranges, 6to4 anycast.
pub open spec fn restricted_v4(o: Seq<u8>) -> bool {
    let (a, b, c, d) = (o[0], o[1], o[2], o[3]);
    ||| a == 0
    ||| a == 127
    ||| a == 10
    ||| (a == 172 && 16 <= b <= 31)
    ||| (a == 192 && b == 168)
    ||| (a == 169 && b == 254)
    ||| (224 <= a <= 239)
    ||| (a == 255 && b == 255 && c == 255 && d == 255)
    ||| (a == 100 && 64 <= b <= 127)
    ||| (a == 192 && b == 0 && c == 0)
    ||| (a == 192 && b == 0 && c == 2)
    ||| (a == 198 && (b == 18 || b == 19))
    ||| (a == 198 && b == 51 && c == 100)
    ||| (a == 203 && b == 0 && c == 113)
    ||| (a == 192 && b == 88 && c == 99)
}

/// Whether an IPv4 address may never be reached.
pub fn is_restricted_v4(o: [u8; 4]) -> (r: bool)
    ensures
        r == restricted_v4(o@),
{
    let (a, b, c, d) = (o[0], o[1], o[2], o[3]);
    a == 0 || a == 127 || a == 10 || (a == 172 && 16 <= b && b <= 31) || (a == 192 && b == 168) || (
    a == 169 && b == 254) || (224 <= a && a <= 239) || (a == 255 && b == 255 && c == 255 && d == 255)
        || (a == 100 && 64 <= b && b <= 127) || (a == 192 && b == 0 && c == 0) || (a == 192 && b == 0
        && c == 2) || (a == 198 && (b == 18 || b == 19)) || (a == 198 && b == 51 && c == 100) || (a
        == 203 && b == 0 && c == 113) || (a == 192 && b == 88 && c == 99)
}

/// The 16-bit group `i` of an IPv6 address.
pub open spec fn group(o: Seq<u8>, i: int) -> int {
    o[2 * i] * 256 + o[2 * i + 1]
}

/// An IPv6 address no pinned connection may reach: unspecified, loopback,
/// multicast, unique local, link-local, documentation, NAT64, and the
/// IPv4-mapped or IPv4-compatible forms of a restricted IPv4 address.
pub open spec fn restricted_v6(o: Seq<u8>) -> bool {
    let zero_head = forall|i: int| 0 <= i < 10 ==> o[i] == 0;
    let embedded = o.subrange(12, 16);
    ||| (forall|i: int| 0 <= i < 16 ==> o[i] == 0)
    ||| (zero_head && o[10] == 0 && o[11] == 0 && o[12] == 0 && o[13] == 0 && o[14] == 0 && o[15] == 1)
    ||| o[0] == 0xff
    ||| (o[0] == 0xfc || o[0] == 0xfd)
    ||| (o[0] == 0xfe && 0x80 <= o[1] <= 0xbf)
    ||| (group(o, 0) == 0x2001 && group(o, 1) == 0x0db8)
    ||| (group(o, 0) == 0x0064 && group(o, 1) == 0xff9b)
    ||| (zero_head && ((o[10] == 0xff && o[11] == 0xff) || (o[10] == 0 && o[11] == 0)) && restricted_v4(
        embedded,
    ))
}

/// Whether an IPv6 address may never be reached.
pub fn is_restricted_v6(o: [u8; 16]) -> (r: bool)
    ensures
        r == restricted_v6(o@),
{
    let mut zero_head = true;
    let mut i: usize = 0;
    while i < 10
        invariant
            i <= 10,
            zero_head == forall|k: int| 0 <= k < i ==> o@[k] == 0,
        decreases 10 - i,
    {
        if o[i] != 0 {
            zero_head = false;
        }
        i += 1;
    }
    let tail_zero = o[10] == 0 && o[11] == 0 && o[12] == 0 && o[13] == 0 && o[14] == 0;
    let unspecified = zero_head && tail_zero && o[15] == 0;
    assert(unspecified == forall|k: int| 0 <= k < 16 ==> o@[k] == 0) by {
        if forall|k: int| 0 <= k < 16 ==> o@[k] == 0 {
            assert(forall|k: int| 0 <= k < 10 ==> o@[k] == 0);
        }
    }
    let loopback = zero_head && tail_zero && o[15] == 1;
    let g0 = o[0] as u32 * 256 + o[1] as u32;
    let g1 = o[2] as u32 * 256 + o[3] as u32;
    let embedded = [o[12], o[13], o[14], o[15]];
    assert(embedded@ =~= o@.subrange(12, 16));
    let mapped = zero_head && ((o[10] == 0xff && o[11] == 0xff) || (o[10] == 0 && o[11] == 0))
        && is_restricted_v4(embedded);
    unspecified || loopback || o[0] == 0xff || o[0] == 0xfc || o[0] == 0xfd || (o[0] == 0xfe && 0x80
        <= o[1] && o[1] <= 0xbf) || (g0 == 0x2001 && g1 == 0x0db8) || (g0 == 0x0064 && g1 == 0xff9b)
        || mapped
}

/// Whether an address may never be reached.
pub open spec fn restricted_addr(ip: IpAddress) -> bool {
    match ip {
        IpAddress::V4(o) => restricted_v4(o@),
        IpAddress::V6(o) => restricted_v6(o@),
    }
}

/// Refuses a restricted address.
pub fn validate_public_addr(ip: IpAddress) -> (r: Result<(), ProxyError>)
    ensures
        r == if restricted_addr(ip) {
            Err::<(), ProxyError>(ProxyError::RestrictedAddress)
        } else {
            Ok(())
        },
{
    let restricted = match ip {
        IpAddress::V4(o) => is_restricted_v4(o),
        IpAddress::V6(o) => is_restricted_v6(o),
    };
    if restricted {
        Err(ProxyError::RestrictedAddress)
    } else {
        Ok(())
    }
}

/// A loopback address.
pub open spec fn loopback_addr(ip: IpAddress) -> bool {
    match ip {
        IpAddress::V4(o) => o@[0] == 127,
        IpAddress::V6(o) => (forall|i: int| 0 <= i < 15 ==> o@[i] == 0) && o@[15] == 1,
    }
}

fn is_loopback(ip: IpAddress) -> (r: bool)
    ensures
        r == loopback_addr(ip),
{
    match ip {
        IpAddress::V4(o) => o[0] == 127,
        IpAddress::V6(o) => {
            let mut i: usize = 0;
            while i < 15
                invariant
                    i <= 15,
                    ip == IpAddress::V6(o),
                    forall|k: int| 0 <= k < i ==> o@[k] == 0,
                decreases 15 - i,
            {
                if o[i] != 0 {
                    return false;
                }
                i += 1;
            }
            o[15] == 1
        },
    }
}

/// Why the broker refuses.
#[derive(Debug, Clone, Copy, PartialEq, Eq, Structural)]
pub enum ProxyError {
    /// The broker would listen off loopback.
    NonLoopbackBind,
    /// No broker exists for `--net=off`.
    NetworkOff,
    /// The host name is refused.
    Host(HostError),
    /// The pinned address's port is not the requested one (or it is 0).
    PortMismatch,
    /// The address may never be reached.
    RestrictedAddress,
    /// The host is not in the allowlist.
    NotAllowed,
    /// The host and port are not in the strict policy.
    NotInStrictPolicy,
    /// The resolver gave no address.
    NoAddresses,
    /// The resolver gave more than 1024 addresses.
    TooManyAddresses,
}

/// A connection the broker authorized, pinned to the address it resolved.
#[derive(Debug, Clone, PartialEq, Eq)]
pub struct PinnedConnection {
    host: String,
    port: u16,
    ip: IpAddress,
    addr_port: u16,
}

impl PinnedConnection {
    /// The normalized host.
    pub closed spec fn host_view(&self) -> Seq<char> {
        self.host@
    }

    /// The requested port.
    pub closed spec fn port_view(&self) -> u16 {
        self.port
    }

    /// The pinned address and port.
    pub closed spec fn addr_view(&self) -> (IpAddress, u16) {
        (self.ip, self.addr_port)
    }

    /// The normalized host.
    pub fn host(&self) -> (h: &str)
        ensures
            h@ == self.host_view(),
    {
        self.host.as_str()
    }

    /// The requested port.
    pub fn port(&self) -> (p: u16)
        ensures
            p == self.port_view(),
    {
        self.port
    }

    /// The pinned address and port.
    pub fn addr(&self) -> (a: (IpAddress, u16))
        ensures
            a == self.addr_view(),
    {
        (self.ip, self.addr_port)
    }

    /// The checks made again right before connecting: the ports agree and
    /// are not 0, the host is still acceptable, the address is not
    /// restricted. `v6_literal` is as for `normalize_host`.
    pub fn connect_check(&self, v6_literal: bool) -> (r: Result<(), ProxyError>)
        ensures
            r == if self.port_view() == 0 || self.addr_view().1 != self.port_view() {
                Err::<(), ProxyError>(ProxyError::PortMismatch)
            } else if normalize_spec(self.host_view(), v6_literal) is Err {
                Err(ProxyError::Host(normalize_spec(self.host_view(), v6_literal)->Err_0))
            } else if restricted_addr(self.addr_view().0) {
                Err(ProxyError::RestrictedAddress)
            } else {
                Ok(())
            },
    {
        if self.port == 0 || self.addr_port != self.port {
            return Err(ProxyError::PortMismatch);
        }
        match normalize_host(self.host.as_str(), v6_literal) {
            Err(e) => Err(ProxyError::Host(e)),
            Ok(_) => validate_public_addr(self.ip),
        }
    }
}

/// The broker's policy: a network mode other than off, and a loopback
/// address to listen on.
pub struct BrokerPolicy {
    mode: NetMode,
    bind: (IpAddress, u16),
}

/// The host matches some configured domain.
pub open spec fn allowlisted(host: Seq<char>, domains: Seq<String>) -> bool {
    exists|i: int| 0 <= i < domains.len() && host_matches_spec(host, #[trigger] domains[i]@)
}

/// Some strict rule opens the port for a domain the host matches.
pub open spec fn strict_listed(host: Seq<char>, port: u16, rules: Seq<NetRule>) -> bool {
    exists|i: int| 0 <= i < rules.len() && (#[trigger] rules[i]).port == port && host_matches_spec(host, rules[i].domain@)
}

/// The authorization of `host:port` pinned to `addr` under `mode`.
pub open spec fn authorize_spec(
    mode: NetMode,
    host: Seq<char>,
    v6_literal: bool,
    port: u16,
    addr: (IpAddress, u16),
) -> Result<Seq<char>, ProxyError> {
    match normalize_spec(host, v6_literal) {
        Err(e) => Err(ProxyError::Host(e)),
        Ok(h) => if port == 0 || addr.1 != port {
            Err(ProxyError::PortMismatch)
        } else if restricted_addr(addr.0) {
            Err(ProxyError::RestrictedAddress)
        } else {
            match mode {
                NetMode::Off => Err(ProxyError::NetworkOff),
                NetMode::Allowlist(d) => if allowlisted(h, d@) {
                    Ok(h)
                } else {
                    Err(ProxyError::NotAllowed)
                },
                NetMode::Strict(rules) => if strict_listed(h, port, rules@) {
                    Ok(h)
                } else {
                    Err(ProxyError::NotInStrictPolicy)
                },
                NetMode::Ask => Ok(h),
            }
        },
    }
}

impl BrokerPolicy {
    /// The network mode.
    pub closed spec fn mode_view(&self) -> NetMode {
        self.mode
    }

    /// The listening address.
    pub closed spec fn bind_view(&self) -> (IpAddress, u16) {
        self.bind
    }

    /// A policy for `mode` listening on `bind`: refused off loopback and for
    /// `--net=off`.
    pub fn new(mode: NetMode, bind: (IpAddress, u16)) -> (r: Result<Self, ProxyError>)
        ensures
            !loopback_addr(bind.0) ==> (r matches Err(e) && e == ProxyError::NonLoopbackBind),
            loopback_addr(bind.0) && mode is Off ==> (r matches Err(e) && e == ProxyError::NetworkOff),
            loopback_addr(bind.0) && !(mode is Off) ==> (r matches Ok(p) && p.mode_view() == mode
                && p.bind_view() == bind),
    {
        if !is_loopback(bind.0) {
            return Err(ProxyError::NonLoopbackBind);
        }
        if let NetMode::Off = mode {
            return Err(ProxyError::NetworkOff);
        }
        Ok(BrokerPolicy { mode, bind })
    }

    /// The network mode.
    pub fn mode(&self) -> (m: &NetMode)
        ensures
            *m == self.mode_view(),
    {
        &self.mode
    }

    /// The listening address.
    pub fn bind_addr(&self) -> (b: (IpAddress, u16))
        ensures
            b == self.bind_view(),
    {
        self.bind
    }

    /// Authorizes `host:port` pinned to `addr` (the address the broker
    /// resolved). `v6_literal` is as for `normalize_host`.
    pub fn authorize(&self, host: &str, v6_literal: bool, port: u16, addr: (IpAddress, u16)) -> (r: Result<
        PinnedConnection,
        ProxyError,
    >)
        ensures
            match authorize_spec(self.mode_view(), host@, v6_literal, port, addr) {
                Ok(h) => (r matches Ok(p) && p.host_view() == h && p.port_view() == port && p.addr_view()
                    == addr),
                Err(e) => r == Err::<PinnedConnection, ProxyError>(e),
            },
    {
        let h = match normalize_host(host, v6_literal) {
            Err(e) => return Err(ProxyError::Host(e)),
            Ok(h) => h,
        };
        if port == 0 || addr.1 != port {
            return Err(ProxyError::PortMismatch);
        }
        match validate_public_addr(addr.0) {
            Err(e) => return Err(e),
            Ok(()) => {},
        }
        match &self.mode {
            NetMode::Off => Err(ProxyError::NetworkOff),
            NetMode::Allowlist(domains) => {
                let mut i: usize = 0;
                while i < domains.len()
                    invariant
                        i <= domains.len(),
                        self.mode_view() == NetMode::Allowlist(*domains),
                        normalize_spec(host@, v6_literal) == Ok::<Seq<char>, HostError>(h@),
                        port != 0 && addr.1 == port,
                        !restricted_addr(addr.0),
                        forall|k: int| 0 <= k < i ==> !host_matches_spec(h@, #[trigger] domains@[k]@),
                    decreases domains.len() - i,
                {
                    if host_matches(h.as_str(), domains[i].as_str()) {
                        assert(host_matches_spec(h@, domains@[i as int]@));
                        assert(allowlisted(h@, domains@));
                        return Ok(PinnedConnection { host: h, port, ip: addr.0, addr_port: addr.1 });
                    }
                    i += 1;
                }
                Err(ProxyError::NotAllowed)
            },
            NetMode::Strict(rules) => {
                let mut i: usize = 0;
                while i < rules.len()
                    invariant
                        i <= rules.len(),
                        self.mode_view() == NetMode::Strict(*rules),
                        normalize_spec(host@, v6_literal) == Ok::<Seq<char>, HostError>(h@),
                        port != 0 && addr.1 == port,
                        !restricted_addr(addr.0),
                        forall|k: int|
                            0 <= k < i ==> !((#[trigger] rules@[k]).port == port && host_matches_spec(
                                h@,
                                rules@[k].domain@,
                            )),
                    decreases rules.len() - i,
                {
                    if rules[i].port == port && host_matches(h.as_str(), rules[i].domain.as_str()) {
                        assert(rules@[i as int].port == port && host_matches_spec(h@, rules@[i as int].domain@));
                        assert(strict_listed(h@, port, rules@));
                        return Ok(PinnedConnection { host: h, port, ip: addr.0, addr_port: addr.1 });
                    }
                    i += 1;
                }
                Err(ProxyError::NotInStrictPolicy)
            },
            NetMode::Ask => Ok(PinnedConnection { host: h, port, ip: addr.0, addr_port: addr.1 }),
        }
    }

    /// Authorizes every address the broker resolved for `host:port` (sorted
    /// and without repeats), or the first refusal: the host must be
    /// acceptable, the port not 0, and between 1 and 1024 addresses given.
    pub fn authorize_all(&self, host: &str, v6_literal: bool, port: u16, addrs: &[(IpAddress, u16)]) -> (r:
        Result<Vec<PinnedConnection>, ProxyError>)
        ensures
            normalize_spec(host@, v6_literal) is Err ==> r == Err::<Vec<PinnedConnection>, ProxyError>(
                ProxyError::Host(normalize_spec(host@, v6_literal)->Err_0),
            ),
            normalize_spec(host@, v6_literal) is Ok && port == 0 ==> r == Err::<
                Vec<PinnedConnection>,
                ProxyError,
            >(ProxyError::PortMismatch),
            r matches Ok(v) ==> v@.len() == addrs@.len() && forall|i: int|
                0 <= i < v@.len() ==> (#[trigger] v@[i]).addr_view() == addrs@[i] && v@[i].port_view() == port
                    && authorize_spec(self.mode_view(), host@, v6_literal, port, addrs@[i]) == Ok::<
                    Seq<char>,
                    ProxyError,
                >(v@[i].host_view()),
            normalize_spec(host@, v6_literal) is Ok && port != 0 ==> (addrs@.len() == 0 <==> r == Err::<
                Vec<PinnedConnection>,
                ProxyError,
            >(ProxyError::NoAddresses)),
            normalize_spec(host@, v6_literal) is Ok && port != 0 && addrs@.len() > 1024 ==> r == Err::<
                Vec<PinnedConnection>,
                ProxyError,
            >(ProxyError::TooManyAddresses),
            normalize_spec(host@, v6_literal) is Ok && port != 0 && 0 < addrs@.len() <= 1024 ==> (r is Ok
                <==> forall|i: int| 0 <= i < addrs@.len() ==> #[trigger] authorize_spec(
                self.mode_view(),
                host@,
                v6_literal,
                port,
                addrs@[i],
            ) is Ok),
    {
        match normalize_host(host, v6_literal) {
            Err(e) => return Err(ProxyError::Host(e)),
            Ok(_) => {},
        }
        if port == 0 {
            return Err(ProxyError::PortMismatch);
        }
        if addrs.len() == 0 {
            return Err(ProxyError::NoAddresses);
        }
        if addrs.len() > 1024 {
            return Err(ProxyError::TooManyAddresses);
        }
        let mut out: Vec<PinnedConnection> = Vec::new();
        let mut i: usize = 0;
        while i < addrs.len()
            invariant
                i <= addrs.len(),
                0 < addrs.len() <= 1024,
                port != 0,
                normalize_spec(host@, v6_literal) is Ok,
                out@.len() == i,
                forall|k: int|
                    0 <= k < i ==> (#[trigger] out@[k]).addr_view() == addrs@[k] && out@[k].port_view() == port
                        && authorize_spec(self.mode_view(), host@, v6_literal, port, addrs@[k]) == Ok::<
                        Seq<char>,
                        ProxyError,
                    >(out@[k].host_view()),
            decreases addrs.len() - i,
        {
            match self.authorize(host, v6_literal, port, addrs[i]) {
                Ok(p) => out.push(p),
                Err(e) => {
                    assert(authorize_spec(self.mode_view(), host@, v6_literal, port, addrs@[i as int]) is Err);
                    return Err(e);
                },
            }
            i += 1;
        }
        assert forall|k: int| 0 <= k < addrs@.len() implies #[trigger] authorize_spec(
            self.mode_view(),
            host@,
            v6_literal,
            port,
            addrs@[k],
        ) is Ok by {
            assert(out@[k].addr_view() == addrs@[k]);
        }
        Ok(out)
    }
}

/// What the broker says of its TLS handling.
pub fn tls_mode() -> (s: &'static str)
    ensures
        s@ == "TLS pass-through only; no certificate interception or MITM"@,
{
    "TLS pass-through only; no certificate interception or MITM"
}

} // verus!
