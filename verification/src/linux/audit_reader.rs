//! Kernel audit feed processing: netlink datagrams are walked message by
//! message, sequence gaps and buffer overruns disrupt the evidence channel,
//! and Landlock denial records become blocked-attempt events.
use vstd::prelude::*;
use crate::text::{
    chars_contains, chars_of, from_utf8_lossy, lower_chars, to_ascii_lowercase, utf8_lossy, chars_starts_with, contains_run, fields, find_chars, find_from,
    parse_u32, parse_unsigned, seqs_of, split_whitespace, starts_with, sub_chars, string_of,
};

verus! {

/// `NETLINK_AUDIT` protocol number.
pub const NETLINK_AUDIT: i32 = 9;

/// Linux `ENOBUFS`.
pub const ENOBUFS_CODE: i32 = 105;

/// No-op message.
pub const NLMSG_NOOP: u16 = 1;

/// Error message; its payload starts with the (negative) errno.
pub const NLMSG_ERROR: u16 = 2;

/// End of a multipart message.
pub const NLMSG_DONE: u16 = 3;

/// The kernel lost messages for this socket.
pub const NLMSG_OVERRUN: u16 = 4;

/// Size of a netlink message header.
pub const NLMSG_HDR_LEN: usize = 16;

/// The netlink message header.
#[derive(Debug, Clone, Copy, PartialEq, Eq, Structural)]
pub struct NlMsgHdr {
    pub nlmsg_len: u32,
    pub nlmsg_type: u16,
    pub nlmsg_flags: u16,
    pub nlmsg_seq: u32,
    pub nlmsg_pid: u32,
}

/// Integrity of the audit evidence channel and its loss counters.
#[derive(Debug, Clone, Copy, PartialEq, Eq, Structural)]
pub struct EvidenceChannel {
    pub intact: bool,
    pub buffer_overflows: u64,
    pub packet_drops: u64,
}

/// What the reader reports while walking a datagram.
#[derive(Debug, PartialEq, Eq)]
pub enum AuditEvent {
    /// Sequence numbers jumped from `prev` to `seq`.
    PacketDrop { prev: u32, seq: u32 },
    /// An `NLMSG_OVERRUN` message.
    BufferOverrun,
    /// An `NLMSG_ERROR` message carrying `ENOBUFS`.
    ErrorNoBufs,
    /// A Landlock denial record.
    LandlockDenied { pid: u32, path: String },
}

/// The mathematical form of an `AuditEvent`.
pub enum AuditNote {
    PacketDrop { prev: u32, seq: u32 },
    BufferOverrun,
    ErrorNoBufs,
    LandlockDenied { pid: u32, path: Seq<char> },
}

impl View for AuditEvent {
    type V = AuditNote;

    open spec fn view(&self) -> AuditNote {
        match self {
            AuditEvent::PacketDrop { prev, seq } => AuditNote::PacketDrop { prev: *prev, seq: *seq },
            AuditEvent::BufferOverrun => AuditNote::BufferOverrun,
            AuditEvent::ErrorNoBufs => AuditNote::ErrorNoBufs,
            AuditEvent::LandlockDenied { pid, path } => AuditNote::LandlockDenied {
                pid: *pid,
                path: path@,
            },
        }
    }
}

/// The views of a sequence of events.
pub open spec fn notes_of(v: Seq<AuditEvent>) -> Seq<AuditNote> {
    v.map_values(|e: AuditEvent| e@)
}

/// An intact channel with no losses counted.
pub open spec fn fresh_channel() -> EvidenceChannel {
    EvidenceChannel { intact: true, buffer_overflows: 0, packet_drops: 0 }
}

impl EvidenceChannel {
    /// An intact channel with no losses counted.
    pub fn new() -> (ch: Self)
        ensures
            ch == fresh_channel(),
    {
        EvidenceChannel { intact: true, buffer_overflows: 0, packet_drops: 0 }
    }
}

/// Whether the evidence channel is intact (no drops, no overflows).
pub fn is_evidence_channel_intact(ch: &EvidenceChannel) -> (r: bool)
    ensures
        r == ch.intact,
{
    ch.intact
}

/// Flags the evidence channel as disrupted; the counters are unchanged.
pub fn mark_evidence_channel_disrupted(ch: &mut EvidenceChannel)
    ensures
        *final(ch) == (EvidenceChannel { intact: false, ..*old(ch) }),
{
    ch.intact = false;
}

/// Records a receive that failed with `ENOBUFS`: the socket's buffer
/// overflowed, so one more overflow is counted and the channel is no longer
/// intact.
pub fn record_receive_overflow(ch: &mut EvidenceChannel)
    ensures
        *final(ch) == (EvidenceChannel {
            intact: false,
            buffer_overflows: old(ch).buffer_overflows.wrapping_add(1),
            ..*old(ch)
        }),
{
    ch.buffer_overflows = ch.buffer_overflows.wrapping_add(1);
    ch.intact = false;
}

/// Resets the channel to intact and clears both counters.
pub fn reset_evidence_channel(ch: &mut EvidenceChannel)
    ensures
        *final(ch) == fresh_channel(),
{
    ch.intact = true;
    ch.buffer_overflows = 0;
    ch.packet_drops = 0;
}

/// The number of buffer overflows seen.
pub fn buffer_overflow_count(ch: &EvidenceChannel) -> (r: u64)
    ensures
        r == ch.buffer_overflows,
{
    ch.buffer_overflows
}

/// The number of messages lost to sequence gaps.
pub fn packet_drop_count(ch: &EvidenceChannel) -> (r: u64)
    ensures
        r == ch.packet_drops,
{
    ch.packet_drops
}

/// The 16-bit word at `at` in the given byte order.
pub open spec fn word16(b: Seq<u8>, at: int, little: bool) -> u16 {
    if little {
        (b[at] + b[at + 1] * 256) as u16
    } else {
        (b[at + 1] + b[at] * 256) as u16
    }
}

/// The 32-bit word at `at` in the given byte order.
pub open spec fn word32(b: Seq<u8>, at: int, little: bool) -> u32 {
    if little {
        (b[at] + b[at + 1] * 256 + b[at + 2] * 65536 + b[at + 3] * 16777216) as u32
    } else {
        (b[at + 3] + b[at + 2] * 256 + b[at + 1] * 65536 + b[at] * 16777216) as u32
    }
}

/// The header that starts at `at`.
pub open spec fn header_at(b: Seq<u8>, at: int, little: bool) -> NlMsgHdr {
    NlMsgHdr {
        nlmsg_len: word32(b, at, little),
        nlmsg_type: word16(b, at + 4, little),
        nlmsg_flags: word16(b, at + 6, little),
        nlmsg_seq: word32(b, at + 8, little),
        nlmsg_pid: word32(b, at + 12, little),
    }
}

fn read_u16(b: &[u8], at: usize, little: bool) -> (r: u16)
    requires
        at + 2 <= b.len(),
    ensures
        r == word16(b@, at as int, little),
{
    let b0 = b[at] as u16;
    let b1 = b[at + 1] as u16;
    if little {
        b0 + b1 * 256
    } else {
        b1 + b0 * 256
    }
}

fn read_u32(b: &[u8], at: usize, little: bool) -> (r: u32)
    requires
        at + 4 <= b.len(),
    ensures
        r == word32(b@, at as int, little),
{
    let b0 = b[at] as u32;
    let b1 = b[at + 1] as u32;
    let b2 = b[at + 2] as u32;
    let b3 = b[at + 3] as u32;
    if little {
        b0 + b1 * 256 + b2 * 65536 + b3 * 16777216
    } else {
        b3 + b2 * 256 + b1 * 65536 + b0 * 16777216
    }
}

/// Decodes the header at `at` (in the machine's byte order, given by `little`).
pub fn read_header(b: &[u8], at: usize, little: bool) -> (h: NlMsgHdr)
    requires
        at + NLMSG_HDR_LEN <= b.len(),
    ensures
        h == header_at(b@, at as int, little),
{
    NlMsgHdr {
        nlmsg_len: read_u32(b, at, little),
        nlmsg_type: read_u16(b, at + 4, little),
        nlmsg_flags: read_u16(b, at + 6, little),
        nlmsg_seq: read_u32(b, at + 8, little),
        nlmsg_pid: read_u32(b, at + 12, little),
    }
}

/// The remainder of the first field of `fs` that starts with `p`.
pub open spec fn first_with_prefix(fs: Seq<Seq<char>>, p: Seq<char>) -> Option<Seq<char>>
    decreases fs.len(),
{
    if fs.len() == 0 {
        None
    } else if starts_with(fs[0], p) {
        Some(fs[0].skip(p.len() as int))
    } else {
        first_with_prefix(fs.drop_first(), p)
    }
}

/// The pid of an audit record: the number after the first `pid=` field, or
/// 0 when there is none or it does not parse.
pub open spec fn audit_pid_spec(line: Seq<char>) -> u32 {
    match first_with_prefix(fields(line), seq!['p', 'i', 'd', '=']) {
        Some(v) => match parse_unsigned(v, u32::MAX as int) {
            Some(n) => n as u32,
            None => 0,
        },
        None => 0,
    }
}

/// The pid named by an audit record line.
pub fn parse_audit_pid(line: &str) -> (pid: u32)
    ensures
        pid == audit_pid_spec(line@),
{
    let cs = chars_of(line);
    let fs = split_whitespace(cs.as_slice());
    let prefix = ['p', 'i', 'd', '='];
    assert(prefix@ == seq!['p', 'i', 'd', '=']);
    let ghost all = seqs_of(fs@);
    assert(all.skip(0) =~= all);
    let mut i: usize = 0;
    while i < fs.len()
        invariant
            i <= fs.len(),
            all == seqs_of(fs@),
            all == fields(cs@),
            cs@ == line@,
            prefix@ == seq!['p', 'i', 'd', '='],
            first_with_prefix(all, prefix@) == first_with_prefix(all.skip(i as int), prefix@),
        decreases fs.len() - i,
    {
        let f = fs[i].as_slice();
        assert(all.skip(i as int)[0] == f@);
        assert(all.skip(i as int).drop_first() =~= all.skip(i + 1));
        if chars_starts_with(f, prefix.as_slice()) {
            let rest = sub_chars(f, 4, f.len());
            assert(rest@ =~= f@.skip(4));
            return match parse_u32(rest.as_slice()) {
                Some(n) => n,
                None => 0,
            };
        }
        i += 1;
    }
    0
}

/// The quoted path of an audit record: the text after the first `path="` up
/// to the next `"`.
pub open spec fn denied_path_spec(line: Seq<char>) -> Option<Seq<char>> {
    match find_from(line, seq!['p', 'a', 't', 'h', '=', '"'], 0) {
        None => None,
        Some(i) => {
            let rest = line.skip(i + 6);
            match find_from(rest, seq!['"'], 0) {
                None => None,
                Some(j) => Some(rest.take(j)),
            }
        },
    }
}

/// The path named by an audit record line.
pub fn extract_denied_path(line: &str) -> (r: Option<String>)
    ensures
        match r {
            Some(p) => denied_path_spec(line@) == Some(p@),
            None => denied_path_spec(line@) is None,
        },
{
    let cs = chars_of(line);
    let key = ['p', 'a', 't', 'h', '=', '"'];
    assert(key@ == seq!['p', 'a', 't', 'h', '=', '"']);
    let idx = match find_chars(cs.as_slice(), key.as_slice(), 0) {
        Some(i) => i + 6,
        None => {
            return None;
        },
    };
    let rest = sub_chars(cs.as_slice(), idx, cs.len());
    assert(rest@ =~= cs@.skip(idx as int));
    let quote = ['"'];
    assert(quote@ == seq!['"']);
    let end = match find_chars(rest.as_slice(), quote.as_slice(), 0) {
        Some(j) => j,
        None => {
            return None;
        },
    };
    let path = sub_chars(rest.as_slice(), 0, end);
    assert(path@ =~= rest@.take(end as int));
    Some(string_of(path.as_slice()))
}

/// State carried while walking datagrams: the last sequence number seen,
/// the channel, and the events reported so far.
pub struct NetlinkState {
    pub last_seq: Option<u32>,
    pub channel: EvidenceChannel,
    pub events: Seq<AuditNote>,
}

/// Effect of a message's sequence number.
pub open spec fn after_seq(h: NlMsgHdr, st: NetlinkState) -> NetlinkState {
    if h.nlmsg_seq > 0 {
        let gap = match st.last_seq {
            Some(prev) => h.nlmsg_seq > prev + 1,
            None => false,
        };
        if gap {
            let prev = st.last_seq->Some_0;
            NetlinkState {
                last_seq: Some(h.nlmsg_seq),
                channel: EvidenceChannel {
                    intact: false,
                    packet_drops: st.channel.packet_drops.wrapping_add(
                        (h.nlmsg_seq - prev - 1) as u64,
                    ),
                    ..st.channel
                },
                events: st.events.push(AuditNote::PacketDrop { prev, seq: h.nlmsg_seq }),
            }
        } else {
            NetlinkState { last_seq: Some(h.nlmsg_seq), ..st }
        }
    } else {
        st
    }
}

/// Counts one buffer overflow and disrupts the channel, reporting `note`.
pub open spec fn overflow(st: NetlinkState, note: AuditNote) -> NetlinkState {
    NetlinkState {
        channel: EvidenceChannel {
            intact: false,
            buffer_overflows: st.channel.buffer_overflows.wrapping_add(1),
            ..st.channel
        },
        events: st.events.push(note),
        ..st
    }
}

/// Whether an `NLMSG_ERROR` message at `at` of length `len` carries `ENOBUFS`.
pub open spec fn error_is_enobufs(b: Seq<u8>, at: int, len: int, little: bool) -> bool {
    len >= NLMSG_HDR_LEN + 4 && {
        let e = word32(b, at + NLMSG_HDR_LEN, little) as i32;
        e == -ENOBUFS_CODE || e == ENOBUFS_CODE
    }
}

/// The denial that a message's payload text reports, if any.
pub open spec fn text_event(b: Seq<u8>, at: int, len: int) -> Option<AuditNote> {
    if len > NLMSG_HDR_LEN {
        let text = utf8_lossy(b.subrange(at + NLMSG_HDR_LEN, at + len));
        let lower = lower_chars(text);
        if contains_run(lower, seq!['l', 'a', 'n', 'd', 'l', 'o', 'c', 'k']) && contains_run(
            lower,
            seq!['d', 'e', 'n', 'i', 'e', 'd'],
        ) {
            Some(
                AuditNote::LandlockDenied {
                    pid: audit_pid_spec(text),
                    path: match denied_path_spec(text) {
                        Some(p) => p,
                        None => Seq::empty(),
                    },
                },
            )
        } else {
            None
        }
    } else {
        None
    }
}

/// Effect of a message's payload text: a Landlock denial is reported.
pub open spec fn after_text(b: Seq<u8>, at: int, len: int, st: NetlinkState) -> NetlinkState {
    match text_event(b, at, len) {
        Some(e) => NetlinkState { events: st.events.push(e), ..st },
        None => st,
    }
}

/// Effect of one complete message with header `h` at `at`.
pub open spec fn message_effect(b: Seq<u8>, at: int, h: NlMsgHdr, little: bool, st: NetlinkState) -> NetlinkState {
    let len = h.nlmsg_len as int;
    let s1 = after_seq(h, st);
    let s2 = if h.nlmsg_type == NLMSG_OVERRUN {
        overflow(s1, AuditNote::BufferOverrun)
    } else {
        s1
    };
    let s3 = if h.nlmsg_type == NLMSG_ERROR && error_is_enobufs(b, at, len, little) {
        overflow(s2, AuditNote::ErrorNoBufs)
    } else {
        s2
    };
    after_text(b, at, len, s3)
}

/// `n` rounded up to a multiple of 4 (`NLMSG_ALIGN`).
pub open spec fn align4(n: int) -> int {
    n + (4 - n % 4) % 4
}

/// The state after walking the messages of `b` from `at` on. The walk stops
/// at a truncated header, a length shorter than a header or running past the
/// datagram, and after an `NLMSG_DONE` message.
pub open spec fn walk(b: Seq<u8>, at: int, little: bool, st: NetlinkState) -> NetlinkState
    decreases b.len() - at,
{
    if at < 0 || at + NLMSG_HDR_LEN > b.len() {
        st
    } else {
        let h = header_at(b, at, little);
        let len = h.nlmsg_len as int;
        if len < NLMSG_HDR_LEN || at + len > b.len() {
            st
        } else {
            let st2 = message_effect(b, at, h, little, st);
            if h.nlmsg_type == NLMSG_DONE || at + align4(len) > b.len() {
                st2
            } else {
                walk(b, at + align4(len), little, st2)
            }
        }
    }
}

/// The walk of a whole datagram.
pub open spec fn walk_datagram(b: Seq<u8>, little: bool, last_seq: Option<u32>, ch: EvidenceChannel) -> NetlinkState {
    walk(b, 0, little, NetlinkState { last_seq, channel: ch, events: Seq::empty() })
}

/// A disrupted channel stays disrupted through the walk of any messages.
proof fn lemma_walk_keeps_disruption(b: Seq<u8>, at: int, little: bool, st: NetlinkState)
    requires
        !st.channel.intact,
    ensures
        !walk(b, at, little, st).channel.intact,
    decreases b.len() - at,
{
    if !(at < 0 || at + NLMSG_HDR_LEN > b.len()) {
        let h = header_at(b, at, little);
        let len = h.nlmsg_len as int;
        if !(len < NLMSG_HDR_LEN || at + len > b.len()) {
            let st2 = message_effect(b, at, h, little, st);
            assert(!st2.channel.intact);
            if !(h.nlmsg_type == NLMSG_DONE || at + align4(len) > b.len()) {
                lemma_walk_keeps_disruption(b, at + align4(len), little, st2);
            }
        }
    }
}

/// Once the evidence channel is disrupted, walking any further buffer
/// leaves it disrupted (so, with the contracts of the marking, overflow and
/// query functions, it reads as disrupted until it is reset).
pub proof fn lemma_disruption_sticks_until_reset(
    b: Seq<u8>,
    little: bool,
    last_seq: Option<u32>,
    ch: EvidenceChannel,
)
    requires
        !ch.intact,
    ensures
        !walk_datagram(b, little, last_seq, ch).channel.intact,
{
    lemma_walk_keeps_disruption(b, 0, little, NetlinkState { last_seq, channel: ch, events: Seq::empty() });
}

fn payload_event(bytes: &[u8], at: usize, len: usize) -> (r: Option<AuditEvent>)
    requires
        at + len <= bytes.len(),
        len > NLMSG_HDR_LEN,
    ensures
        match r {
            Some(e) => text_event(bytes@, at as int, len as int) == Some(e@),
            None => text_event(bytes@, at as int, len as int) is None,
        },
{
    let text = from_utf8_lossy(&bytes[at + NLMSG_HDR_LEN..at + len]);
    assert(bytes@.subrange(at + NLMSG_HDR_LEN, (at + len) as int) == bytes@.subrange(
        (at + NLMSG_HDR_LEN) as int,
        (at + len) as int,
    ));
    let tcs = chars_of(text.as_str());
    let lower = to_ascii_lowercase(tcs.as_slice());
    let landlock = ['l', 'a', 'n', 'd', 'l', 'o', 'c', 'k'];
    let denied = ['d', 'e', 'n', 'i', 'e', 'd'];
    assert(landlock@ == seq!['l', 'a', 'n', 'd', 'l', 'o', 'c', 'k']);
    assert(denied@ == seq!['d', 'e', 'n', 'i', 'e', 'd']);
    if chars_contains(lower.as_slice(), landlock.as_slice()) && chars_contains(
        lower.as_slice(),
        denied.as_slice(),
    ) {
        let pid = parse_audit_pid(text.as_str());
        let path = match extract_denied_path(text.as_str()) {
            Some(p) => p,
            None => String::new(),
        };
        let e = AuditEvent::LandlockDenied { pid, path };
        Some(e)
    } else {
        None
    }
}

/// Applies the effects of the complete message with header `h` at `at`.
fn apply_message(
    bytes: &[u8],
    at: usize,
    little_endian: bool,
    h: NlMsgHdr,
    last_seq: &mut Option<u32>,
    channel: &mut EvidenceChannel,
    events: &mut Vec<AuditEvent>,
)
    requires
        h == header_at(bytes@, at as int, little_endian),
        h.nlmsg_len >= NLMSG_HDR_LEN,
        at + h.nlmsg_len <= bytes.len(),
    ensures
        ({
            let st = message_effect(
                bytes@,
                at as int,
                h,
                little_endian,
                NetlinkState { last_seq: *old(last_seq), channel: *old(channel), events: notes_of(old(events)@) },
            );
            &&& *final(last_seq) == st.last_seq
            &&& *final(channel) == st.channel
            &&& notes_of(final(events)@) == st.events
        }),
{
    let ghost cur = NetlinkState { last_seq: *last_seq, channel: *channel, events: notes_of(events@) };
    let msg_len = h.nlmsg_len as usize;
    let offset = at;
    // Sequence gap: messages were dropped.
    if h.nlmsg_seq > 0 {
        match *last_seq {
            Some(prev) => {
                if h.nlmsg_seq as u64 > prev as u64 + 1 {
                    let dropped = (h.nlmsg_seq - prev - 1) as u64;
                    channel.packet_drops = channel.packet_drops.wrapping_add(dropped);
                    channel.intact = false;
                    events.push(AuditEvent::PacketDrop { prev, seq: h.nlmsg_seq });
                }
            },
            None => {},
        }
        *last_seq = Some(h.nlmsg_seq);
    }
    let ghost s1 = after_seq(h, cur);
    assert(notes_of(events@) =~= s1.events);
    // The kernel overran the socket buffer.
    if h.nlmsg_type == NLMSG_OVERRUN {
        channel.buffer_overflows = channel.buffer_overflows.wrapping_add(1);
        channel.intact = false;
        events.push(AuditEvent::BufferOverrun);
    }
    let ghost s2 = if h.nlmsg_type == NLMSG_OVERRUN {
        overflow(s1, AuditNote::BufferOverrun)
    } else {
        s1
    };
    assert(notes_of(events@) =~= s2.events);
    // An error message carrying ENOBUFS.
    if h.nlmsg_type == NLMSG_ERROR && msg_len >= NLMSG_HDR_LEN + 4 {
        let err = #[verifier::truncate] (read_u32(bytes, offset + NLMSG_HDR_LEN, little_endian) as i32);
        if err == -ENOBUFS_CODE || err == ENOBUFS_CODE {
            channel.buffer_overflows = channel.buffer_overflows.wrapping_add(1);
            channel.intact = false;
            events.push(AuditEvent::ErrorNoBufs);
        }
    }
    let ghost s3 = if h.nlmsg_type == NLMSG_ERROR && error_is_enobufs(
        bytes@,
        offset as int,
        msg_len as int,
        little_endian,
    ) {
        overflow(s2, AuditNote::ErrorNoBufs)
    } else {
        s2
    };
    assert(notes_of(events@) =~= s3.events);
    // The record text, bounded by this message.
    if msg_len > NLMSG_HDR_LEN {
        match payload_event(bytes, offset, msg_len) {
            Some(e) => {
                events.push(e);
            },
            None => {},
        }
    }
    let ghost s4 = after_text(bytes@, offset as int, msg_len as int, s3);
    assert(notes_of(events@) =~= s4.events);
}

/// Walks a buffer of netlink datagrams (messages aligned to 4 bytes), as the
/// audit reader receives them: sequence gaps count dropped messages,
/// `NLMSG_OVERRUN` and `ENOBUFS` errors count overflows, and each of them
/// disrupts the channel; Landlock denial records are reported.
pub fn process_netlink_buffer(
    bytes: &[u8],
    little_endian: bool,
    last_seq: &mut Option<u32>,
    channel: &mut EvidenceChannel,
) -> (events: Vec<AuditEvent>)
    ensures
        ({
            let st = walk_datagram(bytes@, little_endian, *old(last_seq), *old(channel));
            &&& *final(last_seq) == st.last_seq
            &&& *final(channel) == st.channel
            &&& notes_of(events@) == st.events
        }),
{
    let mut events: Vec<AuditEvent> = Vec::new();
    let ghost start = NetlinkState { last_seq: *last_seq, channel: *channel, events: Seq::empty() };
    assert(notes_of(events@) =~= Seq::<AuditNote>::empty());
    let mut offset: usize = 0;
    loop
        invariant
            offset <= bytes.len(),
            start == (NetlinkState { last_seq: *old(last_seq), channel: *old(channel), events: Seq::empty() }),
            walk(bytes@, 0, little_endian, start) == walk(
                bytes@,
                offset as int,
                little_endian,
                NetlinkState { last_seq: *last_seq, channel: *channel, events: notes_of(events@) },
            ),
        decreases bytes.len() - offset,
    {
        let ghost cur = NetlinkState { last_seq: *last_seq, channel: *channel, events: notes_of(events@) };
        if bytes.len() - offset < NLMSG_HDR_LEN {
            assert(walk(bytes@, offset as int, little_endian, cur) == cur);
            return events;
        }
        let h = read_header(bytes, offset, little_endian);
        let msg_len = h.nlmsg_len as usize;
        if msg_len < NLMSG_HDR_LEN || msg_len > bytes.len() - offset {
            assert(walk(bytes@, offset as int, little_endian, cur) == cur);
            return events;
        }
        apply_message(bytes, offset, little_endian, h, last_seq, channel, &mut events);
        let ghost s4 = message_effect(bytes@, offset as int, h, little_endian, cur);
        assert(walk(bytes@, offset as int, little_endian, cur) == if h.nlmsg_type == NLMSG_DONE
            || offset + align4(msg_len as int) > bytes.len() {
            s4
        } else {
            walk(bytes@, offset + align4(msg_len as int), little_endian, s4)
        });
        if h.nlmsg_type == NLMSG_DONE {
            return events;
        }
        let pad = (4 - msg_len % 4) % 4;
        if pad > bytes.len() - offset - msg_len {
            return events;
        }
        offset += msg_len + pad;
    }
}

} // verus!
