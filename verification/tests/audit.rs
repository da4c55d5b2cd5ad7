use vetto::linux::audit_reader::{
    buffer_overflow_count, extract_denied_path, is_evidence_channel_intact,
    mark_evidence_channel_disrupted, packet_drop_count, parse_audit_pid,
    process_netlink_buffer, reset_evidence_channel, AuditEvent, EvidenceChannel, NlMsgHdr,
    ENOBUFS_CODE, NLMSG_DONE, NLMSG_ERROR, NLMSG_NOOP, NLMSG_OVERRUN,
};

fn little() -> bool {
    u16::from_ne_bytes([1, 0]) == 1
}

fn header_bytes(h: &NlMsgHdr) -> Vec<u8> {
    let mut out = Vec::new();
    out.extend_from_slice(&h.nlmsg_len.to_ne_bytes());
    out.extend_from_slice(&h.nlmsg_type.to_ne_bytes());
    out.extend_from_slice(&h.nlmsg_flags.to_ne_bytes());
    out.extend_from_slice(&h.nlmsg_seq.to_ne_bytes());
    out.extend_from_slice(&h.nlmsg_pid.to_ne_bytes());
    out
}

fn hdr(len: u32, ty: u16, seq: u32) -> NlMsgHdr {
    NlMsgHdr { nlmsg_len: len, nlmsg_type: ty, nlmsg_flags: 0, nlmsg_seq: seq, nlmsg_pid: 100 }
}

#[test]
fn test_evidence_channel_lifecycle() {
    let mut ch = EvidenceChannel::new();
    reset_evidence_channel(&mut ch);
    assert!(is_evidence_channel_intact(&ch));
    assert_eq!(buffer_overflow_count(&ch), 0);
    assert_eq!(packet_drop_count(&ch), 0);

    mark_evidence_channel_disrupted(&mut ch);
    assert!(!is_evidence_channel_intact(&ch));

    reset_evidence_channel(&mut ch);
    assert!(is_evidence_channel_intact(&ch));
}

#[test]
fn test_enobufs_constant_matches_linux_errno() {
    assert_eq!(ENOBUFS_CODE, 105);
    assert_eq!(libc::ENOBUFS, 105);
}

#[test]
fn test_parse_audit_pid() {
    let line = "type=LANDLOCK_DENIED msg=audit(1726488345.123:45): pid=4242 comm=\"bash\" path=\"/etc/shadow\"";
    assert_eq!(parse_audit_pid(line), 4242);
}

#[test]
fn test_extract_denied_path() {
    let line = "type=LANDLOCK_DENIED msg=audit(1726488345.123:45): pid=4242 comm=\"bash\" path=\"/etc/shadow\"";
    assert_eq!(extract_denied_path(line), Some("/etc/shadow".to_string()));
}

#[test]
fn test_process_netlink_buffer_composite_and_overflow() {
    let mut ch = EvidenceChannel::new();
    let mut last_seq = None;
    let mut buf = header_bytes(&hdr(16, NLMSG_NOOP, 1));
    buf.extend(header_bytes(&hdr(16, NLMSG_OVERRUN, 2)));
    let events = process_netlink_buffer(&buf, little(), &mut last_seq, &mut ch);
    assert!(!is_evidence_channel_intact(&ch), "NLMSG_OVERRUN in composite packet must disrupt channel");
    assert_eq!(buffer_overflow_count(&ch), 1);
    assert_eq!(last_seq, Some(2));
    assert_eq!(events, vec![AuditEvent::BufferOverrun]);
}

#[test]
fn test_process_netlink_buffer_sequence_gap() {
    let mut ch = EvidenceChannel::new();
    let mut last_seq = None;
    process_netlink_buffer(&header_bytes(&hdr(16, NLMSG_NOOP, 1)), little(), &mut last_seq, &mut ch);
    assert!(is_evidence_channel_intact(&ch));
    assert_eq!(packet_drop_count(&ch), 0);
    let events = process_netlink_buffer(&header_bytes(&hdr(16, NLMSG_NOOP, 5)), little(), &mut last_seq, &mut ch);
    assert!(!is_evidence_channel_intact(&ch));
    assert_eq!(packet_drop_count(&ch), 3);
    assert_eq!(last_seq, Some(5));
    assert_eq!(events, vec![AuditEvent::PacketDrop { prev: 1, seq: 5 }]);
}

#[test]
fn test_process_netlink_buffer_enobufs_error() {
    let mut ch = EvidenceChannel::new();
    let mut last_seq = None;
    let mut buf = header_bytes(&hdr(20, NLMSG_ERROR, 1));
    buf.extend_from_slice(&(-ENOBUFS_CODE).to_ne_bytes());
    process_netlink_buffer(&buf, little(), &mut last_seq, &mut ch);
    assert!(!is_evidence_channel_intact(&ch));
    assert_eq!(buffer_overflow_count(&ch), 1);
}

#[test]
fn landlock_record_is_reported_and_done_stops_the_walk() {
    let mut ch = EvidenceChannel::new();
    let mut last_seq = None;
    let text = b"type=LANDLOCK_ACCESS msg=audit(1.2:3): DENIED pid=77 path=\"/etc/shadow\"";
    let len = 16 + text.len() as u32;
    let mut buf = header_bytes(&hdr(len, 1423, 0));
    buf.extend_from_slice(text);
    while buf.len() % 4 != 0 {
        buf.push(0);
    }
    buf.extend(header_bytes(&hdr(16, NLMSG_DONE, 0)));
    buf.extend(header_bytes(&hdr(16, NLMSG_OVERRUN, 0)));
    let events = process_netlink_buffer(&buf, little(), &mut last_seq, &mut ch);
    assert_eq!(
        events,
        vec![AuditEvent::LandlockDenied { pid: 77, path: "/etc/shadow".to_string() }]
    );
    assert!(is_evidence_channel_intact(&ch));
    assert_eq!(last_seq, None);
}

#[test]
fn truncated_or_short_messages_end_the_walk() {
    let mut ch = EvidenceChannel::new();
    let mut last_seq = Some(9);
    let buf = header_bytes(&hdr(8, NLMSG_OVERRUN, 20));
    let events = process_netlink_buffer(&buf, little(), &mut last_seq, &mut ch);
    assert!(events.is_empty());
    assert_eq!(last_seq, Some(9));
    let buf = header_bytes(&hdr(64, NLMSG_OVERRUN, 20));
    assert!(process_netlink_buffer(&buf, little(), &mut last_seq, &mut ch).is_empty());
    assert!(is_evidence_channel_intact(&ch));
}

#[test]
fn audit_pid_defaults_to_zero() {
    assert_eq!(parse_audit_pid("ppid=3 comm=x"), 0);
    assert_eq!(parse_audit_pid("pid=abc pid=5"), 0);
    assert_eq!(parse_audit_pid("a\tpid=+12"), 12);
    assert_eq!(extract_denied_path("path=\"unterminated"), None);
    assert_eq!(extract_denied_path("no path"), None);
}

#[test]
fn receive_overflow_is_counted_and_breaks_the_channel() {
    let mut ch = vetto::linux::audit_reader::EvidenceChannel::new();
    vetto::linux::audit_reader::record_receive_overflow(&mut ch);
    assert!(!ch.intact);
    assert_eq!(ch.buffer_overflows, 1);
    assert_eq!(ch.packet_drops, 0);
}

#[test]
fn disruption_sticks_until_reset() {
    let mut ch = EvidenceChannel::new();
    let mut last_seq = None;
    mark_evidence_channel_disrupted(&mut ch);
    process_netlink_buffer(&header_bytes(&hdr(16, NLMSG_NOOP, 1)), little(), &mut last_seq, &mut ch);
    process_netlink_buffer(&header_bytes(&hdr(16, NLMSG_NOOP, 2)), little(), &mut last_seq, &mut ch);
    assert!(!is_evidence_channel_intact(&ch));
    assert!(!is_evidence_channel_intact(&ch));
    reset_evidence_channel(&mut ch);
    assert!(is_evidence_channel_intact(&ch));
}
