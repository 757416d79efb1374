use ring::aead::{Aad, LessSafeKey, Nonce, UnboundKey, CHACHA20_POLY1305};
use ring::hkdf;
use ss_rs::crypto::{drawn_nonce, drawn_salt, Cipher, MAX_SEAL_LEN, SUBKEY_INFO};
use ss_rs::frame::{assemble, ciphertext_len};
use ss_rs::packet::validate_ipv4_packet;
use ss_rs::stream::{read_frame, FrameStream};
use ss_rs::{
    pack_addr_payload, unpack_addr_payload, validate_tun_packet, validate_tun_response, Frame,
    Socks5Addr, MAX_PAYLOAD_LEN, TUN_CLIENT_IP, TUN_MODE, TUN_MTU,
};

#[test]
fn frame_round_trip_and_size_limit() {
    let frame = Frame::new("password", &[7; 32]);
    let encoded = frame.encode(b"hello").unwrap();
    assert_eq!(frame.decode(&encoded).unwrap().0, b"hello");
    assert!(frame.encode(&vec![0; MAX_PAYLOAD_LEN + 1]).is_err());
}

#[test]
fn validates_tun_packets() {
    let mut packet = vec![0u8; 20];
    packet[0] = 0x45;
    packet[2..4].copy_from_slice(&20u16.to_be_bytes());
    packet[12..16].copy_from_slice(&TUN_CLIENT_IP);
    assert!(validate_tun_packet(&packet).is_ok());
    packet[16..20].copy_from_slice(&TUN_CLIENT_IP);
    assert!(validate_tun_response(&packet).is_ok());
    packet[12] = 192;
    assert!(validate_tun_packet(&packet).is_err());
}

#[test]
fn address_payload_keeps_first_data() {
    let addresses = [
        Socks5Addr::IPv4([127, 0, 0, 1], 80),
        Socks5Addr::Domain("example.com".into(), 443),
        Socks5Addr::IPv6([0; 16], 53),
    ];
    for address in addresses {
        let payload = pack_addr_payload(&address, b"first data");
        let (decoded, data) = unpack_addr_payload(&payload).unwrap();
        assert_eq!(decoded.to_bytes(), address.to_bytes());
        assert_eq!(data, b"first data");
    }
}

fn error_of<T>(result: Result<T, String>) -> String {
    match result {
        Ok(_) => panic!("expected an error"),
        Err(e) => e,
    }
}

#[test]
fn addresses_on_the_wire() {
    assert_eq!(
        Socks5Addr::IPv4([10, 0, 0, 255], 8080).to_bytes(),
        vec![1, 10, 0, 0, 255, 0x1f, 0x90]
    );
    assert_eq!(
        Socks5Addr::Domain("a.b".into(), 1).to_bytes(),
        vec![3, 3, b'a', b'.', b'b', 0, 1]
    );
    let ip: [u8; 16] = [1, 2, 3, 4, 5, 6, 7, 8, 9, 10, 11, 12, 13, 14, 15, 16];
    let mut wire = vec![4];
    wire.extend_from_slice(&ip);
    wire.extend_from_slice(&[0xff, 0xfe]);
    assert_eq!(Socks5Addr::IPv6(ip, 65534).to_bytes(), wire);
    match Socks5Addr::from_bytes(&wire).unwrap() {
        (Socks5Addr::IPv6(read, port), n) => {
            assert_eq!(read, ip);
            assert_eq!(port, 65534);
            assert_eq!(n, 19);
        }
        _ => panic!("not an IPv6 address"),
    }
}

#[test]
fn address_errors() {
    assert_eq!(error_of(Socks5Addr::from_bytes(&[])), "empty address data");
    assert_eq!(
        error_of(Socks5Addr::from_bytes(&[1, 2, 3, 4, 5, 6])),
        "IPv4 address too short"
    );
    assert_eq!(error_of(Socks5Addr::from_bytes(&[3])), "domain address too short");
    assert_eq!(
        error_of(Socks5Addr::from_bytes(&[3, 2, b'a', b'b', 0])),
        "domain address truncated"
    );
    assert_eq!(
        error_of(Socks5Addr::from_bytes(&[4; 18])),
        "IPv6 address too short"
    );
    assert_eq!(
        error_of(Socks5Addr::from_bytes(&[137, 0])),
        "unknown address type: 137"
    );
    assert_eq!(error_of(unpack_addr_payload(&[2])), "unknown address type: 2");
}

#[test]
fn names_that_are_not_utf8_are_replaced() {
    let wire = [3, 4, b'a', 0xff, 0xc3, b'b', 0, 80];
    match Socks5Addr::from_bytes(&wire).unwrap() {
        (Socks5Addr::Domain(name, 80), 8) => {
            assert_eq!(name, String::from_utf8_lossy(&wire[2..6]));
            assert_eq!(name, "a\u{fffd}\u{fffd}b");
        }
        _ => panic!("not the domain"),
    }
}

#[test]
fn long_names_wrap_their_length() {
    let name = "x".repeat(256);
    let wire = Socks5Addr::Domain(name, 7).to_bytes();
    assert_eq!(wire.len(), 260);
    assert_eq!(&wire[..3], &[3, 0, b'x']);
    match Socks5Addr::from_bytes(&wire).unwrap() {
        (Socks5Addr::Domain(read, _), n) => {
            assert_eq!(read, "");
            assert_eq!(n, 4);
        }
        _ => panic!("not a domain"),
    }
}

#[test]
fn rejected_packets_say_why() {
    let mut packet = vec![0u8; 24];
    assert_eq!(
        error_of(validate_ipv4_packet(&packet[..19])),
        "invalid IPv4 packet length"
    );
    assert_eq!(
        error_of(validate_ipv4_packet(&vec![0x45; TUN_MTU + 1])),
        "invalid IPv4 packet length"
    );
    assert_eq!(error_of(validate_ipv4_packet(&packet)), "not an IPv4 packet");
    packet[0] = 0x44;
    assert_eq!(
        error_of(validate_ipv4_packet(&packet)),
        "invalid IPv4 header length"
    );
    packet[0] = 0x47;
    assert_eq!(
        error_of(validate_ipv4_packet(&packet)),
        "invalid IPv4 header length"
    );
    packet[0] = 0x46;
    assert_eq!(
        error_of(validate_ipv4_packet(&packet)),
        "invalid IPv4 total length"
    );
    packet[3] = 24;
    assert!(validate_ipv4_packet(&packet).is_ok());
    assert_eq!(
        error_of(validate_tun_packet(&packet)),
        "invalid TUN source address"
    );
    assert_eq!(
        error_of(validate_tun_response(&packet)),
        "invalid TUN destination address"
    );
}

struct KeyLength;

impl hkdf::KeyType for KeyLength {
    fn len(&self) -> usize {
        32
    }
}

fn reference_key(password: &str, salt: &[u8]) -> LessSafeKey {
    let mut bytes = [0u8; 32];
    hkdf::Salt::new(hkdf::HKDF_SHA256, salt)
        .extract(password.as_bytes())
        .expand(&[b"ss-subkey"], KeyLength)
        .unwrap()
        .fill(&mut bytes)
        .unwrap();
    LessSafeKey::new(UnboundKey::new(&CHACHA20_POLY1305, &bytes).unwrap())
}

#[test]
fn cipher_agrees_with_the_primitives() {
    assert_eq!(&SUBKEY_INFO, b"ss-subkey");
    let salt = [9u8; 32];
    let nonce = [5u8; 12];
    let cipher = Cipher::new("pass", &salt);
    let sealed = cipher.encrypt(&nonce, b"plain text").unwrap();
    let mut expected = b"plain text".to_vec();
    reference_key("pass", &salt)
        .seal_in_place_append_tag(
            Nonce::assume_unique_for_key(nonce),
            Aad::empty(),
            &mut expected,
        )
        .unwrap();
    assert_eq!(sealed, expected);
    assert_ne!(&sealed[..10], b"plain text");
    assert_eq!(cipher.decrypt(&nonce, &sealed).unwrap(), b"plain text");
}

#[test]
fn password_and_salt_make_the_key() {
    let nonce = [0u8; 12];
    let sealed = Cipher::new("pass", &[1; 32]).encrypt(&nonce, b"x").unwrap();
    assert_ne!(
        Cipher::new("pasS", &[1; 32]).encrypt(&nonce, b"x").unwrap(),
        sealed
    );
    assert_ne!(
        Cipher::new("pass", &[2; 32]).encrypt(&nonce, b"x").unwrap(),
        sealed
    );
}

#[test]
fn cipher_errors() {
    let cipher = Cipher::new("pass", &[1; 32]);
    let bad_nonce = match <[u8; 12]>::try_from(&[0u8; 11][..]) {
        Ok(_) => panic!("eleven bytes are no nonce"),
        Err(e) => format!("bad nonce: {:?}", e),
    };
    assert_eq!(error_of(cipher.encrypt(&[0; 11], b"x")), bad_nonce);
    assert_eq!(error_of(cipher.decrypt(&[0; 13], &[0; 16])), bad_nonce);
    assert_eq!(
        error_of(cipher.decrypt(&[0; 12], &[0; 15])),
        "ciphertext too short"
    );
    let mut sealed = cipher.encrypt(&[0; 12], b"hello").unwrap();
    sealed[0] ^= 1;
    assert_eq!(
        error_of(cipher.decrypt(&[0; 12], &sealed)),
        format!("decrypt error: {}", ring::error::Unspecified)
    );
    assert_eq!(MAX_SEAL_LEN, 64 * ((1 << 32) - 1));
}

#[test]
fn lengths_of_the_cipher() {
    assert_eq!(Cipher::salt_len(), 32);
    assert_eq!(Cipher::nonce_len(), 12);
    assert_eq!(Cipher::tag_len(), 16);
    assert_eq!(Frame::salt_len(), 32);
}

#[test]
fn salts_and_nonces_are_fresh() {
    let a = Frame::generate_salt().unwrap();
    let b = Cipher::generate_salt().unwrap();
    assert_eq!(a.len(), 32);
    assert_ne!(a, b);
    assert_ne!(a, vec![0; 32]);
    assert_ne!(
        Cipher::generate_nonce().unwrap(),
        Cipher::generate_nonce().unwrap()
    );
}

#[test]
fn a_salt_is_the_bytes_that_were_drawn() {
    let bytes: Vec<u8> = (1..=32).collect();
    assert_eq!(drawn_salt(Ok(bytes.clone())).unwrap(), bytes);
    assert_eq!(
        error_of(drawn_salt(Err(ring::error::Unspecified))),
        "random source failed: ring::error::Unspecified"
    );
}

#[test]
fn a_nonce_is_the_bytes_that_were_drawn() {
    let bytes: Vec<u8> = (1..=12).collect();
    assert_eq!(
        drawn_nonce(Ok(bytes)).unwrap(),
        [1, 2, 3, 4, 5, 6, 7, 8, 9, 10, 11, 12]
    );
    assert_eq!(
        error_of(drawn_nonce(Err(ring::error::Unspecified))),
        "random source failed: ring::error::Unspecified"
    );
}

#[test]
fn targets_have_a_name_beside_the_cipher() {
    let target: ss_rs::crypto::Socks5Addr = Socks5Addr::IPv4([1, 2, 3, 4], 5);
    assert_eq!(target.to_bytes(), vec![1, 1, 2, 3, 4, 0, 5]);
}

#[test]
fn frame_layout() {
    let frame = Frame::new("password", &[3; 32]);
    let nonce = [8u8; 12];
    let encoded = frame.encode_with(&nonce, b"abc").unwrap();
    assert_eq!(&encoded[..12], &nonce);
    assert_eq!(&encoded[12..14], &[0, 19]);
    assert_eq!(encoded.len(), 33);
    assert_eq!(ciphertext_len(&encoded), 19);
    let sealed = Cipher::new("password", &[3; 32])
        .encrypt(&nonce, b"abc")
        .unwrap();
    assert_eq!(assemble(&nonce, &sealed).unwrap(), encoded);
    assert_eq!(
        error_of(assemble(&nonce, &vec![0; 65536])),
        "ciphertext too large"
    );
}

#[test]
fn frame_errors() {
    let frame = Frame::new("password", &[3; 32]);
    assert_eq!(error_of(frame.decode(&[0; 13])), "frame too short");
    let encoded = frame.encode(b"abc").unwrap();
    assert_eq!(
        error_of(frame.decode(&encoded[..encoded.len() - 1])),
        "frame truncated"
    );
    assert_eq!(error_of(frame.decode(&[0; 14])), "ciphertext too short");
    assert_eq!(
        error_of(frame.encode(&vec![0; MAX_PAYLOAD_LEN + 1])),
        "payload too large"
    );
    let largest = frame.encode(&vec![1; MAX_PAYLOAD_LEN]).unwrap();
    assert_eq!(&largest[12..14], &[0xff, 0xff]);
    assert_eq!(frame.decode(&largest).unwrap().0.len(), MAX_PAYLOAD_LEN);
    let other = Frame::new("other", &[3; 32]);
    assert_eq!(
        error_of(other.decode(&encoded)),
        "decrypt error: ring::error::Unspecified"
    );
}

#[test]
fn decoding_ignores_what_follows() {
    let frame = Frame::new("password", &[3; 32]);
    let mut bytes = frame.encode(&[TUN_MODE]).unwrap();
    let n = bytes.len();
    bytes.extend_from_slice(b"more");
    assert_eq!(frame.decode(&bytes).unwrap(), (vec![0], n));
    assert_eq!(
        read_frame(&frame, &bytes[..14], &bytes[14..n]).unwrap(),
        (vec![0], n)
    );
}

#[test]
fn a_stream_can_be_cut_anywhere() {
    let frame = Frame::new("password", &[3; 32]);
    let payloads: Vec<Vec<u8>> = vec![b"one".to_vec(), vec![], b"three".to_vec()];
    let mut bytes = Vec::new();
    for payload in &payloads {
        bytes.extend(frame.encode(payload).unwrap());
    }
    for size in [1, 2, 13, 14, 15, 40, bytes.len()] {
        let mut stream = FrameStream::new();
        let mut seen = Vec::new();
        for chunk in bytes.chunks(size) {
            let (mut got, error) = stream.receive(&frame, chunk);
            assert_eq!(error, None);
            seen.append(&mut got);
        }
        assert_eq!(seen, payloads);
    }
}

#[test]
fn a_stream_stops_at_a_bad_frame() {
    let frame = Frame::new("password", &[3; 32]);
    let mut bytes = frame.encode(b"good").unwrap();
    let mut bad = frame.encode(b"bad").unwrap();
    bad[20] ^= 1;
    bytes.extend(bad);
    bytes.extend(frame.encode(b"unseen").unwrap());
    let (got, error) = FrameStream::new().receive(&frame, &bytes);
    assert_eq!(got, vec![b"good".to_vec()]);
    assert_eq!(
        error,
        Some("decrypt error: ring::error::Unspecified".to_owned())
    );
}
