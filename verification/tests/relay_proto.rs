use vetto::linux::net_relay::{broker_host, resolution_forbidden, IpAddress, IpCidr, TransferStats};
use vetto::linux::relay_proto::{
    broker_answer, client_reply, head_complete, loopback_address_message, loopback_link_message,
    netlink_reply, not_implemented_reply, parse_connect_head, NetlinkReply,
    request_frame, socks5_greeting, socks5_host, BrokerAnswer, ConnectHead,
};

#[test]
fn connect_head_is_parsed() {
    let head = b"CONNECT Example.COM:443 HTTP/1.1\r\nHost: example.com:443\r\nx-vetto-debug-token:  abc123 \r\n\r\n";
    assert!(head_complete(head));
    assert_eq!(
        parse_connect_head(head),
        ConnectHead::Target { host: "example.com".into(), port: 443, token: Some("abc123".into()) }
    );
    assert_eq!(
        parse_connect_head(b"connect [::1]:8080 HTTP/1.1\r\n\r\n"),
        ConnectHead::Target { host: "[::1]".into(), port: 8080, token: None }
    );
}

#[test]
fn other_methods_and_bad_targets_are_refused() {
    assert_eq!(parse_connect_head(b"GET http://x/ HTTP/1.1\r\n\r\n"), ConnectHead::NotConnect);
    assert_eq!(parse_connect_head(b"CONNECT example.com HTTP/1.1\r\n\r\n"), ConnectHead::Invalid);
    assert_eq!(parse_connect_head(b"CONNECT a:70000 HTTP/1.1\r\n\r\n"), ConnectHead::Invalid);
    assert_eq!(parse_connect_head(b"CONNECT\r\n\r\n"), ConnectHead::Invalid);
    assert_eq!(parse_connect_head(b"\r\n\r\n"), ConnectHead::Invalid);
    assert!(!head_complete(b"CONNECT a:1 HTTP/1.1\r\n"));
    assert_eq!(
        not_implemented_reply(),
        b"HTTP/1.1 501 Not Implemented\r\nConnection: close\r\n\r\n".to_vec()
    );
}

#[test]
fn socks5_greeting_and_targets() {
    assert_eq!(socks5_greeting(&[]), None);
    assert_eq!(socks5_greeting(&[2, 0]), Some(([5, 0], true)));
    assert_eq!(socks5_greeting(&[2]), Some(([5, 0xff], false)));
    assert_eq!(socks5_greeting(&[0; 33]), None);
    assert_eq!(socks5_host(1, &[93, 184, 216, 34]), Some("93.184.216.34".into()));
    assert_eq!(socks5_host(3, b"Example.ORG"), Some("example.org".into()));
    let v6 = [0x26, 0x06, 0x28, 0, 0x02, 0x20, 0, 1, 0x02, 0x48, 0x18, 0x93, 0x25, 0xc8, 0x19, 0x46];
    assert_eq!(socks5_host(4, &v6), Some("[2606:2800:0220:0001:0248:1893:25c8:1946]".into()));
    assert_eq!(socks5_host(9, &[]), None);
}

#[test]
fn broker_answers_become_client_replies() {
    assert_eq!(broker_answer(b'O'), BrokerAnswer::Connected);
    assert_eq!(broker_answer(b'D'), BrokerAnswer::Denied);
    assert_eq!(broker_answer(b'x'), BrokerAnswer::Failed);
    assert_eq!(client_reply(true, BrokerAnswer::Denied), vec![5, 2, 0, 1, 0, 0, 0, 0, 0, 0]);
    assert_eq!(client_reply(true, BrokerAnswer::Failed), vec![5, 1, 0, 1, 0, 0, 0, 0, 0, 0]);
    assert_eq!(client_reply(true, BrokerAnswer::Connected), vec![5, 0, 0, 1, 0, 0, 0, 0, 0, 0]);
    assert_eq!(client_reply(false, BrokerAnswer::Denied), b"HTTP/1.1 403 Forbidden\r\n\r\n".to_vec());
    assert_eq!(client_reply(false, BrokerAnswer::Failed), b"HTTP/1.1 502 Bad Gateway\r\n\r\n".to_vec());
    assert_eq!(
        client_reply(false, BrokerAnswer::Connected),
        b"HTTP/1.1 200 Connection established\r\n\r\n".to_vec()
    );
}

#[test]
fn requests_are_length_framed() {
    assert_eq!(request_frame(b"{}"), Some(vec![2, 0, b'{', b'}']));
    let big = vec![b'a'; 300];
    let f = request_frame(&big).unwrap();
    assert_eq!(&f[..2], &[44, 1]);
    assert_eq!(f.len(), 302);
    assert_eq!(request_frame(&vec![0u8; 4097]), None);
}

#[test]
fn transfer_counters_are_checked_before_recording() {
    let mut stats = TransferStats::new();
    assert!(stats.can_add_transfer("a.com", u64::MAX, 0));
    stats.add_transfer("a.com", None, 10, 0);
    assert!(!stats.can_add_transfer(" A.com ", u64::MAX, 0));
    assert!(stats.can_add_transfer("b.com", u64::MAX, u64::MAX));
}

#[test]
fn broker_hosts_are_normalised() {
    assert_eq!(broker_host(" Example.com. "), Some("Example.com".to_string()));
    assert_eq!(broker_host("..."), None);
    assert_eq!(broker_host("a b.com"), None);
    assert_eq!(broker_host("a.com\r"), Some("a.com".to_string()));
    assert_eq!(broker_host("a\r\nb"), None);
}

#[test]
fn one_forbidden_answer_refuses_the_request() {
    let public = IpAddress::V4([93, 184, 216, 34]);
    let private = IpAddress::V4([10, 1, 2, 3]);
    let loop4 = IpAddress::V4([127, 0, 0, 1]);
    assert!(!resolution_forbidden("example.com", 443, None, &[public], &[]));
    assert!(resolution_forbidden("example.com", 443, None, &[public, private], &[]));
    let ten = IpCidr::from_parts(IpAddress::V4([10, 0, 0, 0]), Some(8)).unwrap();
    assert!(!resolution_forbidden("example.com", 443, None, &[public, private], &[ten]));
    assert!(!resolution_forbidden("localhost", 8080, None, &[loop4], &[]));
    assert!(resolution_forbidden("example.com", 8080, None, &[loop4], &[]));
    assert!(resolution_forbidden("example.com", 853, None, &[public], &[]));
}

#[test]
fn loopback_netlink_messages() {
    assert_eq!(
        loopback_address_message(true),
        vec![32, 0, 0, 0, 20, 0, 5, 6, 1, 0, 0, 0, 0, 0, 0, 0, 2, 8, 0, 254, 1, 0, 0, 0, 8, 0, 2, 0, 127, 0, 0, 1]
    );
    assert_eq!(
        loopback_link_message(true),
        vec![32, 0, 0, 0, 16, 0, 5, 0, 2, 0, 0, 0, 0, 0, 0, 0, 0, 0, 0, 0, 1, 0, 0, 0, 1, 0, 0, 0, 1, 0, 0, 0]
    );
    assert_eq!(&loopback_link_message(false)[..8], &[0, 0, 0, 32, 0, 16, 0, 5]);
    let mut resp = [0u8; 256];
    assert_eq!(netlink_reply(&resp, 12, true), NetlinkReply::TooShort);
    resp[4] = 2;
    assert_eq!(netlink_reply(&resp, 36, true), NetlinkReply::Ack(true));
    resp[16] = 0xef;
    assert_eq!(netlink_reply(&resp, 36, true), NetlinkReply::Ack(false));
    resp[4] = 3;
    assert_eq!(netlink_reply(&resp, 36, true), NetlinkReply::Other);
}
