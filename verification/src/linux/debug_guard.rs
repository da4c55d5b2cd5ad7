//! Loopback debug port isolation: Chrome DevTools, the Node.js inspector and
//! Python debugpy ports are refused to the agent unless explicitly allowed
//! or the request carries the session's debug token.
use vstd::prelude::*;
use sha2::Digest;
use crate::text::{append_chars, chars_eq, chars_of, string_of, trim, trim_ws};

verus! {

/// Header that carries the session's debug token.
pub const DEBUG_AUTH_HEADER: &'static str = "X-Vetto-Debug-Token";

/// Which debug services are isolated, and ports that are always allowed.
#[derive(Debug, Clone, PartialEq, Eq)]
pub struct DebugPortConfig {
    pub isolate_devtools: bool,
    pub isolate_node_inspect: bool,
    pub isolate_debugpy: bool,
    pub allowed_ports: Vec<u16>,
}

impl Default for DebugPortConfig {
    fn default() -> (c: Self)
        ensures
            c.isolate_devtools && c.isolate_node_inspect && c.isolate_debugpy,
            c.allowed_ports@.len() == 0,
    {
        DebugPortConfig {
            isolate_devtools: true,
            isolate_node_inspect: true,
            isolate_debugpy: true,
            allowed_ports: Vec::new(),
        }
    }
}

/// The decision on a loopback connection.
#[derive(Debug, Clone, PartialEq, Eq)]
pub enum DebugPortVerdict {
    Allowed,
    Blocked { port: u16, service: &'static str },
}

/// Whether `port` is a Chrome DevTools port.
pub open spec fn devtools_port(port: u16) -> bool {
    port == 9222 || port == 9223
}

/// Whether `port` is a Node.js inspector port.
pub open spec fn node_port(port: u16) -> bool {
    port == 9229 || port == 9230
}

/// Whether `port` is the Python debugpy port.
pub open spec fn debugpy_port(port: u16) -> bool {
    port == 5678
}

/// The guard for one session.
#[derive(Debug, Clone)]
pub struct DebugPortGuard {
    config: DebugPortConfig,
    session_token: String,
    whitelisted: Vec<u16>,
}

/// SHA-256 of a byte string.
pub uninterp spec fn sha256(data: Seq<u8>) -> Seq<u8>;

/// Calls `sha2::Sha256::digest`. Claimed: the result is `sha256` of the
/// input and has 32 bytes.
#[verifier::external_body]
fn sha256_digest(data: &[u8]) -> (d: Vec<u8>)
    ensures
        d@ == sha256(data@),
        d@.len() == 32,
{
    sha2::Sha256::digest(data).to_vec()
}

/// The lower-case hexadecimal digit for `v < 16`.
pub open spec fn hex_digit(v: int) -> char {
    if v < 10 {
        (48 + v) as u8 as char
    } else {
        (87 + v) as u8 as char
    }
}

/// Lower-case hexadecimal of `b`, two digits per byte.
pub open spec fn hex_spec(b: Seq<u8>) -> Seq<char>
    decreases b.len(),
{
    if b.len() == 0 {
        Seq::empty()
    } else {
        hex_spec(b.drop_last()) + seq![hex_digit(b.last() as int / 16), hex_digit(b.last() as int % 16)]
    }
}

fn hex_char(v: u8) -> (c: char)
    requires
        v < 16,
    ensures
        c == hex_digit(v as int),
{
    if v < 10 {
        (48 + v) as char
    } else {
        (87 + v) as char
    }
}

/// Lower-case hexadecimal encoding.
pub fn encode(data: &[u8]) -> (s: String)
    ensures
        s@ == hex_spec(data@),
{
    let mut out: Vec<char> = Vec::new();
    let mut i: usize = 0;
    while i < data.len()
        invariant
            i <= data.len(),
            out@ == hex_spec(data@.take(i as int)),
        decreases data.len() - i,
    {
        let b = data[i];
        out.push(hex_char(b / 16));
        out.push(hex_char(b % 16));
        assert(data@.take(i + 1).drop_last() =~= data@.take(i as int));
        assert(out@ =~= hex_spec(data@.take(i + 1)));
        i += 1;
    }
    assert(data@.take(data.len() as int) =~= data@);
    string_of(out.as_slice())
}

/// The `n` little-endian bytes of `v`.
pub open spec fn le_bytes(v: nat, n: nat) -> Seq<u8>
    decreases n,
{
    if n == 0 {
        Seq::empty()
    } else {
        seq![(v % 256) as u8] + le_bytes(v / 256, (n - 1) as nat)
    }
}

fn push_le(out: &mut Vec<u8>, v: u128, n: usize)
    requires
        n <= 16,
    ensures
        final(out)@ == old(out)@ + le_bytes(v as nat, n as nat),
    decreases n,
{
    if n > 0 {
        out.push((v % 256) as u8);
        push_le(out, v / 256, n - 1);
        assert(old(out)@.push((v % 256) as u8) + le_bytes((v / 256) as nat, (n - 1) as nat) =~= old(out)@
            + le_bytes(v as nat, n as nat));
    } else {
        assert(old(out)@ + Seq::<u8>::empty() =~= old(out)@);
    }
}

/// The token input: a fixed label, the process id and the nonce, both
/// little-endian.
pub open spec fn token_input(pid: u32, nonce: u128) -> Seq<u8> {
    "vetto-debug-token-v1-"@.map_values(|c: char| c as u8) + le_bytes(pid as nat, 4) + le_bytes(
        nonce as nat,
        16,
    )
}

/// The session token derived from a process id and a nonce.
pub open spec fn token_spec(pid: u32, nonce: u128) -> Seq<char> {
    seq!['v', 'd', 't', '_'] + hex_spec(sha256(token_input(pid, nonce)).take(16))
}

fn ascii_bytes(s: &str) -> (out: Vec<u8>)
    ensures
        out@ == s@.map_values(|c: char| c as u8),
{
    let cs = chars_of(s);
    let mut out: Vec<u8> = Vec::new();
    let mut i: usize = 0;
    while i < cs.len()
        invariant
            i <= cs.len(),
            cs@ == s@,
            out@ == cs@.take(i as int).map_values(|c: char| c as u8),
        decreases cs.len() - i,
    {
        out.push(cs[i] as u8);
        assert(cs@.take(i + 1).map_values(|c: char| c as u8) =~= cs@.take(i as int).map_values(
            |c: char| c as u8,
        ).push(cs@[i as int] as u8));
        i += 1;
    }
    assert(cs@.take(cs.len() as int) =~= cs@);
    out
}

/// Derives the per-session debug token: `vdt_` and the hexadecimal of the
/// first 16 bytes of SHA-256 over the label, the process id and the nonce
/// (the time in nanoseconds).
pub fn derive_token(pid: u32, nonce: u128) -> (t: String)
    ensures
        t@ == token_spec(pid, nonce),
{
    let mut input = ascii_bytes("vetto-debug-token-v1-");
    push_le(&mut input, pid as u128, 4);
    push_le(&mut input, nonce, 16);
    let digest = sha256_digest(input.as_slice());
    let mut first: Vec<u8> = Vec::new();
    let mut i: usize = 0;
    while i < 16
        invariant
            i <= 16,
            digest@.len() == 32,
            first@ == digest@.take(i as int),
        decreases 16 - i,
    {
        first.push(digest[i]);
        assert(digest@.take(i + 1) =~= digest@.take(i as int).push(digest@[i as int]));
        i += 1;
    }
    let hex = encode(first.as_slice());
    let mut t = chars_of("vdt_");
    let hcs = chars_of(hex.as_str());
    append_chars(&mut t, hcs.as_slice());
    proof {
        reveal_strlit("vdt_");
    }
    assert(t@ =~= token_spec(pid, nonce));
    string_of(t.as_slice())
}

impl DebugPortGuard {
    /// The configuration.
    pub closed spec fn config_spec(&self) -> DebugPortConfig {
        self.config
    }

    /// The session token.
    pub closed spec fn token_view(&self) -> Seq<char> {
        self.session_token@
    }

    /// Whether `port` is always allowed.
    pub closed spec fn whitelisted_spec(&self, port: u16) -> bool {
        self.whitelisted@.contains(port)
    }

    /// A guard with a token derived from process id `pid` and time `nonce`.
    pub fn new(config: DebugPortConfig, pid: u32, nonce: u128) -> (g: Self)
        ensures
            g.token_view() == token_spec(pid, nonce),
            g.config_spec() == config,
            forall|p: u16| g.whitelisted_spec(p) <==> config.allowed_ports@.contains(p),
    {
        let session_token = derive_token(pid, nonce);
        Self::with_token(config, session_token)
    }

    /// A guard with an explicit token (tests, multi-agent coordinators).
    pub fn with_token(config: DebugPortConfig, token: String) -> (g: Self)
        ensures
            g.token_view() == token@,
            g.config_spec() == config,
            forall|p: u16| g.whitelisted_spec(p) <==> config.allowed_ports@.contains(p),
    {
        let mut whitelisted: Vec<u16> = Vec::new();
        let mut i: usize = 0;
        while i < config.allowed_ports.len()
            invariant
                i <= config.allowed_ports.len(),
                whitelisted@ == config.allowed_ports@.take(i as int),
            decreases config.allowed_ports.len() - i,
        {
            whitelisted.push(config.allowed_ports[i]);
            assert(config.allowed_ports@.take(i + 1) =~= config.allowed_ports@.take(i as int).push(
                config.allowed_ports@[i as int],
            ));
            i += 1;
        }
        assert(config.allowed_ports@.take(config.allowed_ports.len() as int) =~= config.allowed_ports@);
        DebugPortGuard { config, session_token: token, whitelisted }
    }

    /// The session token.
    pub fn session_token(&self) -> (t: &str)
        ensures
            t@ == self.token_view(),
    {
        self.session_token.as_str()
    }

    /// Whether `port` is an isolated debug port under this configuration.
    pub fn is_debug_port(&self, port: u16) -> (r: bool)
        ensures
            r == ((self.config_spec().isolate_devtools && devtools_port(port)) || (
            self.config_spec().isolate_node_inspect && node_port(port)) || (
            self.config_spec().isolate_debugpy && debugpy_port(port))),
    {
        if self.config.isolate_devtools && (port == 9222 || port == 9223) {
            return true;
        }
        if self.config.isolate_node_inspect && (port == 9229 || port == 9230) {
            return true;
        }
        if self.config.isolate_debugpy && port == 5678 {
            return true;
        }
        false
    }

    /// The debug service that usually listens on `port`.
    pub fn identify_service(&self, port: u16) -> (r: Option<&'static str>)
        ensures
            r == if devtools_port(port) {
                Some("Chrome DevTools")
            } else if node_port(port) {
                Some("Node.js Inspector")
            } else if debugpy_port(port) {
                Some("Python debugpy")
            } else {
                None::<&'static str>
            },
    {
        if port == 9222 || port == 9223 {
            Some("Chrome DevTools")
        } else if port == 9229 || port == 9230 {
            Some("Node.js Inspector")
        } else if port == 5678 {
            Some("Python debugpy")
        } else {
            None
        }
    }

    fn whitelisted_contains(&self, port: u16) -> (r: bool)
        ensures
            r == self.whitelisted_spec(port),
    {
        let mut i: usize = 0;
        while i < self.whitelisted.len()
            invariant
                i <= self.whitelisted.len(),
                forall|k: int| 0 <= k < i ==> self.whitelisted@[k] != port,
            decreases self.whitelisted.len() - i,
        {
            if self.whitelisted[i] == port {
                return true;
            }
            i += 1;
        }
        false
    }

    /// The verdict for a connection to loopback `port` presenting `token`:
    /// an allowed port or the session token (surrounding white space
    /// ignored) passes; an isolated debug port is blocked, naming its
    /// service; anything else passes.
    pub open spec fn access_spec(&self, port: u16, token: Option<Seq<char>>) -> DebugPortVerdict {
        if self.whitelisted_spec(port) {
            DebugPortVerdict::Allowed
        } else if token matches Some(t) && trim_ws(t) == self.token_view() {
            DebugPortVerdict::Allowed
        } else if self.config_spec().isolate_devtools && devtools_port(port) {
            DebugPortVerdict::Blocked { port, service: "Chrome DevTools" }
        } else if self.config_spec().isolate_node_inspect && node_port(port) {
            DebugPortVerdict::Blocked { port, service: "Node.js Inspector" }
        } else if self.config_spec().isolate_debugpy && debugpy_port(port) {
            DebugPortVerdict::Blocked { port, service: "Python debugpy" }
        } else {
            DebugPortVerdict::Allowed
        }
    }

    /// Decides a connection to loopback `port`.
    pub fn check_access(&self, port: u16, token_candidate: Option<&str>) -> (v: DebugPortVerdict)
        ensures
            v == self.access_spec(
                port,
                match token_candidate {
                    Some(t) => Some(t@),
                    None => None,
                },
            ),
    {
        if self.whitelisted_contains(port) {
            return DebugPortVerdict::Allowed;
        }
        match token_candidate {
            Some(token) => {
                let tc = chars_of(token);
                let t = trim(tc.as_slice());
                let mine = chars_of(self.session_token.as_str());
                if chars_eq(t.as_slice(), mine.as_slice()) {
                    return DebugPortVerdict::Allowed;
                }
            },
            None => {},
        }
        if self.config.isolate_devtools && (port == 9222 || port == 9223) {
            return DebugPortVerdict::Blocked { port, service: "Chrome DevTools" };
        }
        if self.config.isolate_node_inspect && (port == 9229 || port == 9230) {
            return DebugPortVerdict::Blocked { port, service: "Node.js Inspector" };
        }
        if self.config.isolate_debugpy && port == 5678 {
            return DebugPortVerdict::Blocked { port, service: "Python debugpy" };
        }
        DebugPortVerdict::Allowed
    }
}

} // verus!
