use ss_rs::http::{has_head, parse_head, parse_request, HttpHead, HttpRequest, HEAD_LIMIT};
use ss_rs::session::{
    client_inbound, client_outbound, dial_address, first_request, open_proxy, open_tun,
    server_inbound, server_outbound, tun_server, Request, TunSlot,
};
use ss_rs::socks5::{success_reply, Socks5State, Socks5Step};
use ss_rs::{unpack_addr_payload, Frame, Socks5Addr, MAX_PAYLOAD_LEN, TUN_CLIENT_IP};

fn failure<T>(result: Result<T, String>) -> String {
    match result {
        Ok(_) => panic!("expected an error"),
        Err(e) => e,
    }
}

#[test]
fn plain_http_request_is_sent_as_first_data() {
    let request = b"GET http://example.com/test HTTP/1.1\r\nHost: example.com\r\n\r\n";
    let mut head = HttpHead::new();
    let complete = head.receive(request).unwrap();
    assert!(complete);
    let parsed = parse_request(head.bytes()).unwrap();
    let salt = vec![0u8; Frame::salt_len()];
    let (_, encoded) = open_proxy(
        "test-password",
        &salt,
        parsed.target(),
        parsed.first_data(head.bytes()),
    )
    .unwrap();
    assert_eq!(parsed.reply(), None);

    let frame = Frame::new("test-password", &salt);
    let payload = frame.decode(&encoded).unwrap().0;
    let (address, first_data) = unpack_addr_payload(&payload).unwrap();
    assert!(matches!(address, Socks5Addr::Domain(host, 80) if host == "example.com"));
    assert_eq!(first_data, request);
}

fn connect_target(line: &str) -> (String, u16) {
    match parse_head(line).unwrap() {
        HttpRequest::Connect(Socks5Addr::Domain(host, port)) => (host, port),
        _ => panic!("no tunnel"),
    }
}

fn forward_target(line: &str) -> (String, u16) {
    match parse_head(line).unwrap() {
        HttpRequest::Forward(Socks5Addr::Domain(host, port)) => (host, port),
        _ => panic!("no forwarding"),
    }
}

#[test]
fn http_targets() {
    assert_eq!(
        connect_target("CONNECT example.com:443 HTTP/1.1\r\n\r\n"),
        ("example.com".to_owned(), 443)
    );
    assert_eq!(
        connect_target("CONNECT [::1]:8443 HTTP/1.1"),
        ("[::1]".to_owned(), 8443)
    );
    assert_eq!(
        forward_target("GET https://example.com/a:b HTTP/1.1\r\n\r\n"),
        ("example.com".to_owned(), 443)
    );
    assert_eq!(
        forward_target("POST ftp://example.com HTTP/1.0\n\n"),
        ("example.com".to_owned(), 80)
    );
    assert_eq!(
        forward_target("GET http://example.com:8080/x://y HTTP/1.1\r\n"),
        ("example.com".to_owned(), 8080)
    );
    assert_eq!(
        forward_target("connect http://h:+7/ HTTP/1.1 extra\r\n"),
        ("h".to_owned(), 7)
    );
}

#[test]
fn http_errors() {
    assert_eq!(
        failure(parse_head("GET /\r\nHost: x\r\n\r\n")),
        "invalid HTTP request: GET /"
    );
    assert_eq!(failure(parse_head("")), "invalid HTTP request: ");
    assert_eq!(
        failure(parse_head("CONNECT example.com HTTP/1.1\r\n")),
        "bad CONNECT address: example.com"
    );
    assert_eq!(
        failure(parse_head("CONNECT example.com:70000 HTTP/1.1\r\n")),
        "bad port: 70000: number too large to fit in target type"
    );
    assert_eq!(
        failure(parse_head("CONNECT example.com: HTTP/1.1\r\n")),
        "bad port: : cannot parse integer from empty string"
    );
    assert_eq!(
        failure(parse_head("GET http://example.com:8x/ HTTP/1.1\r\n")),
        "bad port: 8x: invalid digit found in string"
    );
    assert_eq!(
        failure(parse_head("GET /index HTTP/1.1\r\n")),
        "bad URL: /index"
    );
}

#[test]
fn requests_that_are_not_utf8_are_read_with_replacements() {
    match parse_request(b"CONNECT \xff.com:1 HTTP/1.1\r\n\r\n").unwrap() {
        HttpRequest::Connect(Socks5Addr::Domain(host, 1)) => assert_eq!(host, "\u{fffd}.com"),
        _ => panic!("no tunnel"),
    }
}

#[test]
fn a_body_that_is_not_utf8_changes_nothing() {
    let bytes = b"POST http://example.com:81/ HTTP/1.1\r\n\r\n\xff\xfe\n\xc3";
    match parse_request(bytes).unwrap() {
        HttpRequest::Forward(Socks5Addr::Domain(host, 81)) => assert_eq!(host, "example.com"),
        _ => panic!("no forwarding"),
    }
}

#[test]
fn tunnels_begin_without_data() {
    let head = b"CONNECT example.com:443 HTTP/1.1\r\n\r\n";
    let parsed = parse_request(head).unwrap();
    assert!(parsed.first_data(head).is_empty());
    assert_eq!(
        parsed.reply(),
        Some("HTTP/1.1 200 Connection Established\r\n\r\n")
    );
}

#[test]
fn the_head_ends_at_an_empty_line() {
    assert!(has_head(b"\r\n\r\n"));
    assert!(has_head(b"x\r\n\r\ny"));
    assert!(!has_head(b"\r\n\r"));
    assert!(!has_head(b"\r\n\n\r\n"));
    assert!(!has_head(b""));
    let mut head = HttpHead::new();
    assert_eq!(head.room(), Ok(HEAD_LIMIT));
    assert_eq!(head.receive(b"GET / HTTP/1.1\r\n\r"), Ok(false));
    assert_eq!(head.room(), Ok(HEAD_LIMIT - 17));
    assert_eq!(head.receive(b"\nbody"), Ok(true));
    assert_eq!(head.bytes(), b"GET / HTTP/1.1\r\n\r\nbody");
    assert_eq!(
        failure(head.receive(b"")),
        "connection closed during HTTP request"
    );
    let mut full = HttpHead::new();
    assert_eq!(full.receive(&[b'x'; 4096]), Ok(false));
    assert_eq!(failure(full.room()), "request too long");
}

/// Feeds `input` to a conversation: all that it writes, and how it ends.
fn converse(mut input: &[u8]) -> (Vec<u8>, Result<Socks5Addr, String>, usize) {
    let mut state = Socks5State::Greeting;
    let mut written = Vec::new();
    loop {
        let n = state.wanted();
        let piece = &input[..n];
        input = &input[n..];
        match state.advance(piece) {
            Ok(Socks5Step::Next(next, reply)) => {
                written.extend(reply);
                state = next;
            }
            Ok(Socks5Step::Target(addr)) => return (written, Ok(addr), input.len()),
            Err(e) => return (written, Err(e), input.len()),
        }
    }
}

#[test]
fn socks5_conversations() {
    for target in [
        Socks5Addr::IPv4([1, 2, 3, 4], 5),
        Socks5Addr::Domain("例子.com".into(), 443),
        Socks5Addr::Domain("".into(), 65535),
        Socks5Addr::IPv6([7; 16], 80),
    ] {
        for methods in [vec![], vec![0], vec![2, 1, 0]] {
            let mut input = vec![5, methods.len() as u8];
            input.extend(&methods);
            input.extend([5, 1, 0]);
            input.extend(target.to_bytes());
            input.extend(b"rest");
            let (written, outcome, left) = converse(&input);
            assert_eq!(written, vec![5, 0]);
            assert_eq!(outcome.unwrap().to_bytes(), target.to_bytes());
            assert_eq!(left, 4);
        }
    }
    assert_eq!(success_reply(), [5, 0, 0, 1, 0, 0, 0, 0, 0, 0]);
}

#[test]
fn socks5_errors() {
    assert_eq!(failure(converse(&[4, 1, 0]).1), "not SOCKS5");
    for request in [[4, 1, 0, 1], [5, 2, 0, 1], [5, 1, 1, 1]] {
        let mut input = vec![5, 0];
        input.extend(request);
        assert_eq!(failure(converse(&input).1), "unsupported SOCKS5 request");
    }
    assert_eq!(
        failure(converse(&[5, 0, 5, 1, 0, 2]).1),
        "unsupported address type"
    );
}

#[test]
fn the_first_frame_reaches_the_server() {
    let salt = [6u8; 32];
    let target = Socks5Addr::Domain("example.org".into(), 8443);
    let (_, bytes) = open_proxy("pw", &salt, &target, b"early").unwrap();
    let plain = Frame::new("pw", &salt).decode(&bytes).unwrap().0;
    match first_request(&plain).unwrap() {
        Request::Proxy(Socks5Addr::Domain(host, 8443), data) => {
            assert_eq!(host, "example.org");
            assert_eq!(data, b"early");
        }
        _ => panic!("not the target"),
    }
    let (_, bytes) = open_tun("pw", &salt).unwrap();
    let plain = Frame::new("pw", &salt).decode(&bytes).unwrap().0;
    assert!(matches!(first_request(&plain).unwrap(), Request::Tun));
    assert_eq!(
        failure(first_request(&[0, 0])),
        "bad first payload: unknown address type: 0"
    );
    assert_eq!(
        failure(first_request(&[])),
        "bad first payload: empty address data"
    );
    assert_eq!(
        failure(open_proxy("pw", &salt, &target, &vec![0; MAX_PAYLOAD_LEN])),
        "payload too large"
    );
}

#[test]
fn addresses_to_dial() {
    assert_eq!(
        dial_address(&Socks5Addr::IPv4([192, 0, 2, 10], 80)),
        "192.0.2.10:80"
    );
    assert_eq!(
        dial_address(&Socks5Addr::Domain("example.com".into(), 443)),
        "example.com:443"
    );
    let mut ip = [0u8; 16];
    ip[0] = 0xfe;
    ip[1] = 0x80;
    ip[15] = 0x0a;
    assert_eq!(
        dial_address(&Socks5Addr::IPv6(ip, 53)),
        "[fe:80:00:00:00:00:00:00:00:00:00:00:00:00:00:0a]:53"
    );
}

fn packet(source: [u8; 4], destination: [u8; 4]) -> Vec<u8> {
    let mut packet = vec![0u8; 20];
    packet[0] = 0x45;
    packet[3] = 20;
    packet[12..16].copy_from_slice(&source);
    packet[16..20].copy_from_slice(&destination);
    packet
}

#[test]
fn packets_between_the_devices() {
    let frame = Frame::new("pw", &[1; 32]);
    let down = packet([8, 8, 8, 8], TUN_CLIENT_IP);
    let bytes = server_outbound(&frame, &down).unwrap();
    assert_eq!(
        client_inbound(&frame, &bytes[..14], &bytes[14..]).unwrap(),
        down
    );
    assert_eq!(
        failure(server_inbound(&frame, &bytes[..14], &bytes[14..])),
        "invalid TUN source address"
    );

    let up = packet(TUN_CLIENT_IP, [8, 8, 8, 8]);
    let bytes = client_outbound(&frame, &up).unwrap().unwrap();
    assert_eq!(
        server_inbound(&frame, &bytes[..14], &bytes[14..]).unwrap(),
        up
    );
    assert_eq!(
        failure(client_inbound(&frame, &bytes[..14], &bytes[14..])),
        "invalid TUN destination address"
    );

    assert_eq!(failure(server_outbound(&frame, &[])), "ss-tun0 closed");
    assert_eq!(
        failure(server_outbound(&frame, &up)),
        "invalid TUN destination address"
    );
    assert_eq!(
        failure(client_outbound(&frame, &[])),
        "Wintun adapter closed"
    );
    assert_eq!(client_outbound(&frame, &[0x60, 0, 0]).unwrap(), None);
    assert_eq!(
        failure(client_outbound(&frame, &vec![0x45; MAX_PAYLOAD_LEN + 1])),
        "payload too large"
    );
}

#[test]
fn one_client_has_the_device() {
    let mut slot = TunSlot::new();
    assert!(slot.acquire().is_ok());
    assert_eq!(
        failure(slot.acquire()),
        "another TUN client is already connected"
    );
    slot.release();
    assert!(slot.acquire().is_ok());
}

#[test]
fn the_server_for_all_traffic() {
    assert_eq!(
        tun_server(Some((Some([203, 0, 113, 9]), 8388))),
        Ok(([203, 0, 113, 9], 8388))
    );
    assert_eq!(
        failure(tun_server(Some((None, 8388)))),
        "TUN mode requires an IPv4 server address"
    );
    assert_eq!(
        failure(tun_server(None)),
        "TUN mode requires --server to be an IPv4 address and port"
    );
}
