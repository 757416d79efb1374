//! How a connection begins, what the server makes of its first payload, and
//! what passes between the frames and the tunnel device.

use crate::address::{be16, Addr, Socks5Addr};
use crate::crypto::{connection_key, digestible, random_failure, sealed, NONCE_LEN};
use crate::frame::{decoded, encoded, frame_len, law_decode_ignores_rest, Frame, HEADER_LEN, MAX_PAYLOAD_LEN, TUN_MODE};
use crate::packet::{
    ipv4_packet, tun_packet, tun_response, validate_tun_packet, validate_tun_response,
    TUN_CLIENT_IP,
};
use crate::payload::{law_payload_round_trip, pack_addr_payload, unpack_addr_payload, unpacked};
use crate::stream::read_frame;
use crate::text::{
    dec, hex2, law_byte_digits, law_decimal_round_trip, law_split_at_character, lemma_dec_chars,
    parse_digits, parse_number, push_dec, push_hex2, rsplit_once, split_all, NumError,
};
use vstd::prelude::*;

verus! {

/// `bytes` is the frame that carries `payload` under the nonce at its front, and
/// it is decoded to `payload`.
pub open spec fn carries(key: Seq<u8>, bytes: Seq<u8>, payload: Seq<u8>) -> bool {
    &&& bytes == encoded(key, bytes.take(NONCE_LEN as int), payload)
    &&& decoded(key, bytes) == Ok::<(Seq<u8>, nat), Seq<char>>((payload, bytes.len()))
}

// ---------------------------------------------------------------------------
// The client's first frame
// ---------------------------------------------------------------------------

/// The frames of a new proxy connection and the first of them, which carries
/// the target and the data that is there already.
pub fn open_proxy(password: &str, salt: &[u8], target: &Socks5Addr, first_data: &[u8]) -> (result:
    Result<(Frame, Vec<u8>), String>)
    requires
        digestible(password@, salt@),
    ensures
        ({
            let payload = target@.encode() + first_data@;
            &&& payload.len() > MAX_PAYLOAD_LEN <==> (result matches Err(e) && e@
                == "payload too large"@)
            &&& result matches Err(e) ==> e@ == "payload too large"@ || e@ == random_failure()
            &&& result matches Ok((frame, bytes)) ==> frame@ == connection_key(password@, salt@)
                && carries(frame@, bytes@, payload)
        }),
{
    let frame = Frame::new(password, salt);
    let first_payload = pack_addr_payload(target, first_data);
    let first_frame = frame.encode(first_payload.as_slice())?;
    Ok((frame, first_frame))
}

/// The frames of a new connection to the tunnel device and the first of them,
/// which asks for the device.
pub fn open_tun(password: &str, salt: &[u8]) -> (result: Result<(Frame, Vec<u8>), String>)
    requires
        digestible(password@, salt@),
    ensures
        result matches Err(e) ==> e@ == random_failure(),
        result matches Ok((frame, bytes)) ==> frame@ == connection_key(password@, salt@)
            && carries(frame@, bytes@, seq![TUN_MODE]),
{
    let frame = Frame::new(password, salt);
    let mode: [u8; 1] = [TUN_MODE];
    assert(mode@ =~= seq![TUN_MODE]);
    let first_frame = frame.encode(mode.as_slice())?;
    Ok((frame, first_frame))
}

/// The server for all traffic of the machine, from the address that was read of
/// what the user gave: its host, if that is IPv4, and its port. There is no
/// address where the text is none.
pub fn tun_server(parsed: Option<(Option<[u8; 4]>, u16)>) -> (result: Result<
    ([u8; 4], u16),
    String,
>)
    ensures
        match parsed {
            None => result matches Err(e) && e@
                == "TUN mode requires --server to be an IPv4 address and port"@,
            Some((None, _)) => result matches Err(e) && e@
                == "TUN mode requires an IPv4 server address"@,
            Some((Some(ip), port)) => result matches Ok(server) && server == (ip, port),
        },
{
    match parsed {
        None => Err("TUN mode requires --server to be an IPv4 address and port".to_owned()),
        Some((None, _)) => Err("TUN mode requires an IPv4 server address".to_owned()),
        Some((Some(ip), port)) => Ok((ip, port)),
    }
}

// ---------------------------------------------------------------------------
// The server's view of the first payload
// ---------------------------------------------------------------------------

/// What a client asks for with its first payload.
pub enum Request {
    /// The tunnel device.
    Tun,
    /// A connection to the target, and the data to send there first.
    Proxy(Socks5Addr, Vec<u8>),
}

/// A request as a mathematical value.
pub ghost enum Asked {
    Tun,
    Proxy(Addr, Seq<u8>),
}

impl View for Request {
    type V = Asked;

    open spec fn view(&self) -> Asked {
        match self {
            Request::Tun => Asked::Tun,
            Request::Proxy(target, data) => Asked::Proxy(target@, data@),
        }
    }
}

/// What the first payload of a connection asks for.
pub open spec fn asked(plain: Seq<u8>) -> Result<Asked, Seq<char>> {
    if plain == seq![TUN_MODE] {
        Ok(Asked::Tun)
    } else {
        match unpacked(plain) {
            Ok((target, data)) => Ok(Asked::Proxy(target, data)),
            Err(e) => Err("bad first payload: "@ + e),
        }
    }
}

/// What the first payload of a connection asks for.
pub fn first_request(plain: &[u8]) -> (result: Result<Request, String>)
    ensures
        match result {
            Ok(request) => asked(plain@) == Ok::<Asked, Seq<char>>(request@),
            Err(e) => asked(plain@) == Err::<Asked, Seq<char>>(e@),
        },
{
    if plain.len() == 1 && plain[0] == TUN_MODE {
        assert(plain@ =~= seq![TUN_MODE]);
        return Ok(Request::Tun);
    }
    assert(plain@ != seq![TUN_MODE]) by {
        if plain@ == seq![TUN_MODE] {
            assert(plain@.len() == 1 && plain@[0] == TUN_MODE);
        }
    }
    match unpack_addr_payload(plain) {
        Ok((target, payload)) => Ok(Request::Proxy(target, vstd::slice::slice_to_vec(payload))),
        Err(e) => {
            let mut message = "bad first payload: ".to_owned();
            message.append(e.as_str());
            Err(message)
        },
    }
}

/// Two hexadecimal digits for each byte, with colons between them.
pub open spec fn hex_groups(bytes: Seq<u8>) -> Seq<char>
    decreases bytes.len(),
{
    if bytes.len() == 0 {
        seq![]
    } else if bytes.len() == 1 {
        hex2(bytes[0])
    } else {
        hex_groups(bytes.drop_last()) + seq![':'] + hex2(bytes.last())
    }
}

/// The text of an address that a connection is dialled with.
pub open spec fn dial_text(addr: Addr) -> Seq<char> {
    match addr {
        Addr::IPv4(ip, port) => dec(ip[0] as nat) + seq!['.'] + dec(ip[1] as nat) + seq!['.']
            + dec(ip[2] as nat) + seq!['.'] + dec(ip[3] as nat) + seq![':'] + dec(port as nat),
        Addr::Domain(domain, port) => domain + seq![':'] + dec(port as nat),
        Addr::IPv6(ip, port) => seq!['['] + hex_groups(ip) + seq![']', ':'] + dec(port as nat),
    }
}

/// The text of an address that a connection is dialled with.
pub fn dial_address(addr: &Socks5Addr) -> (text: String)
    ensures
        text@ == dial_text(addr@),
{
    let mut text = String::new();
    match addr {
        Socks5Addr::IPv4(ip, port) => {
            push_dec(&mut text, ip[0] as u64);
            text.push('.');
            push_dec(&mut text, ip[1] as u64);
            text.push('.');
            push_dec(&mut text, ip[2] as u64);
            text.push('.');
            push_dec(&mut text, ip[3] as u64);
            text.push(':');
            push_dec(&mut text, *port as u64);
        },
        Socks5Addr::Domain(domain, port) => {
            text.append(domain.as_str());
            text.push(':');
            push_dec(&mut text, *port as u64);
        },
        Socks5Addr::IPv6(ip, port) => {
            text.push('[');
            let mut i: usize = 0;
            while i < 16
                invariant
                    i <= 16,
                    text@ == seq!['['] + hex_groups(ip@.take(i as int)),
                decreases 16 - i,
            {
                if i > 0 {
                    text.push(':');
                }
                push_hex2(&mut text, ip[i]);
                proof {
                    let longer = ip@.take(i + 1);
                    assert(longer.drop_last() =~= ip@.take(i as int));
                    assert(longer.last() == ip@[i as int]);
                    assert(text@ =~= seq!['['] + hex_groups(longer));
                }
                i += 1;
            }
            assert(ip@.take(16) =~= ip@);
            text.push(']');
            text.push(':');
            push_dec(&mut text, *port as u64);
        },
    }
    assert(text@ =~= dial_text(addr@));
    text
}

/// The one tunnel device of the server, which one client at a time can have.
pub struct TunSlot {
    pub taken: bool,
}

impl TunSlot {
    /// The device, which nobody has yet.
    pub fn new() -> (slot: Self)
        ensures
            !slot.taken,
    {
        TunSlot { taken: false }
    }

    /// Takes the device for a client, unless another one has it.
    pub fn acquire(&mut self) -> (result: Result<(), String>)
        ensures
            final(self).taken,
            result is Ok <==> !old(self).taken,
            result matches Err(e) ==> e@ == "another TUN client is already connected"@,
    {
        if self.taken {
            return Err("another TUN client is already connected".to_owned());
        }
        self.taken = true;
        Ok(())
    }

    /// Gives the device back when its client is gone.
    pub fn release(&mut self)
        ensures
            !final(self).taken,
    {
        self.taken = false;
    }
}

// ---------------------------------------------------------------------------
// Packets
// ---------------------------------------------------------------------------

/// The packet of a frame, as far as `check` lets it pass.
pub open spec fn checked(
    frame: Result<(Seq<u8>, nat), Seq<char>>,
    check: spec_fn(Seq<u8>) -> Result<(), Seq<char>>,
) -> Result<Seq<u8>, Seq<char>> {
    match frame {
        Err(e) => Err(e),
        Ok((packet, _)) => match check(packet) {
            Err(e) => Err(e),
            Ok(()) => Ok(packet),
        },
    }
}

/// The packet that the server takes out of a frame and hands to its device.
pub fn server_inbound(frame: &Frame, header: &[u8], ciphertext: &[u8]) -> (result: Result<
    Vec<u8>,
    String,
>)
    requires
        header@.len() == HEADER_LEN,
    ensures
        ({
            let want = checked(
                decoded(frame@, header@ + ciphertext@),
                |p: Seq<u8>| tun_packet(p),
            );
            match result {
                Ok(packet) => want == Ok::<Seq<u8>, Seq<char>>(packet@),
                Err(e) => want == Err::<Seq<u8>, Seq<char>>(e@),
            }
        }),
{
    let (packet, _) = read_frame(frame, header, ciphertext)?;
    validate_tun_packet(packet.as_slice())?;
    Ok(packet)
}

/// The packet that the client takes out of a frame and hands to its device.
pub fn client_inbound(frame: &Frame, header: &[u8], ciphertext: &[u8]) -> (result: Result<
    Vec<u8>,
    String,
>)
    requires
        header@.len() == HEADER_LEN,
    ensures
        ({
            let want = checked(
                decoded(frame@, header@ + ciphertext@),
                |p: Seq<u8>| tun_response(p),
            );
            match result {
                Ok(packet) => want == Ok::<Seq<u8>, Seq<char>>(packet@),
                Err(e) => want == Err::<Seq<u8>, Seq<char>>(e@),
            }
        }),
{
    let (packet, _) = read_frame(frame, header, ciphertext)?;
    validate_tun_response(packet.as_slice())?;
    Ok(packet)
}

/// The frame for a packet that the server read from its device.
pub fn server_outbound(frame: &Frame, packet: &[u8]) -> (result: Result<Vec<u8>, String>)
    ensures
        packet@.len() == 0 ==> (result matches Err(e) && e@ == "ss-tun0 closed"@),
        packet@.len() > 0 && tun_response(packet@) is Err ==> (result matches Err(e) && e@
            == tun_response(packet@)->Err_0),
        packet@.len() > 0 && tun_response(packet@) is Ok ==> match result {
            Ok(bytes) => carries(frame@, bytes@, packet@),
            Err(e) => e@ == random_failure(),
        },
{
    if packet.len() == 0 {
        return Err("ss-tun0 closed".to_owned());
    }
    validate_tun_response(packet)?;
    frame.encode(packet)
}

/// The frame for a packet that the client read from its device, or nothing for
/// a packet that is not IPv4.
pub fn client_outbound(frame: &Frame, packet: &[u8]) -> (result: Result<Option<Vec<u8>>, String>)
    ensures
        packet@.len() == 0 ==> (result matches Err(e) && e@ == "Wintun adapter closed"@),
        packet@.len() > 0 && packet@[0] / 16 != 4 ==> result matches Ok(None),
        packet@.len() > 0 && packet@[0] / 16 == 4 ==> {
            &&& packet@.len() > MAX_PAYLOAD_LEN <==> (result matches Err(e) && e@
                == "payload too large"@)
            &&& result matches Err(e) ==> e@ == "payload too large"@ || e@ == random_failure()
            &&& result matches Ok(bytes) ==> bytes matches Some(bytes) && carries(
                frame@,
                bytes@,
                packet@,
            )
        },
{
    if packet.len() == 0 {
        return Err("Wintun adapter closed".to_owned());
    }
    if packet[0] / 16 != 4 {
        return Ok(None);
    }
    let encoded = frame.encode(packet)?;
    Ok(Some(encoded))
}

// ---------------------------------------------------------------------------
// Laws
// ---------------------------------------------------------------------------

/// The server understands the first frame of a proxy connection as the client
/// meant it: the target and the data that the client packed, and never the
/// tunnel device. It holds for every target whose name fits its length byte,
/// and whatever follows the frame.
pub proof fn law_server_understands_proxy(
    key: Seq<u8>,
    bytes: Seq<u8>,
    target: Addr,
    first_data: Seq<u8>,
    rest: Seq<u8>,
)
    requires
        target.wf(),
        target.fits(),
        carries(key, bytes, target.encode() + first_data),
    ensures
        decoded(key, bytes + rest) is Ok,
        asked(decoded(key, bytes + rest)->Ok_0.0) == Ok::<Asked, Seq<char>>(
            Asked::Proxy(target, first_data),
        ),
{
    law_payload_round_trip(target, first_data);
    law_decode_ignores_rest(key, bytes, rest);
    let payload = target.encode() + first_data;
    assert(payload.len() > 1);
}

/// The server understands the first frame of a connection to the tunnel device
/// as that. Its payload is no address.
pub proof fn law_server_understands_tun(key: Seq<u8>, bytes: Seq<u8>, rest: Seq<u8>)
    requires
        carries(key, bytes, seq![TUN_MODE]),
    ensures
        decoded(key, bytes + rest) is Ok,
        asked(decoded(key, bytes + rest)->Ok_0.0) == Ok::<Asked, Seq<char>>(Asked::Tun),
        unpacked(seq![TUN_MODE]) is Err,
{
    law_decode_ignores_rest(key, bytes, rest);
}

/// A packet that the server lets out of its device, the client lets into its
/// own, whatever way the frame is cut into header and ciphertext.
pub proof fn law_server_packets_reach_client(
    key: Seq<u8>,
    header: Seq<u8>,
    ciphertext: Seq<u8>,
    packet: Seq<u8>,
)
    requires
        tun_response(packet) is Ok,
        carries(key, header + ciphertext, packet),
    ensures
        checked(decoded(key, header + ciphertext), |p: Seq<u8>| tun_response(p)) == Ok::<
            Seq<u8>,
            Seq<char>,
        >(packet),
{
}

/// A packet that the client sends as itself, the server lets into its device.
pub proof fn law_client_packets_reach_server(
    key: Seq<u8>,
    header: Seq<u8>,
    ciphertext: Seq<u8>,
    packet: Seq<u8>,
)
    requires
        tun_packet(packet) is Ok,
        carries(key, header + ciphertext, packet),
    ensures
        checked(decoded(key, header + ciphertext), |p: Seq<u8>| tun_packet(p)) == Ok::<
            Seq<u8>,
            Seq<char>,
        >(packet),
{
}

/// The server hands a packet to its device only if it is a whole IPv4 packet
/// from the address of the client.
pub proof fn law_server_admits_only_client_packets(frame: Result<(Seq<u8>, nat), Seq<char>>)
    requires
        checked(frame, |p: Seq<u8>| tun_packet(p)) is Ok,
    ensures
        ({
            let packet = checked(frame, |p: Seq<u8>| tun_packet(p))->Ok_0;
            &&& ipv4_packet(packet) is Ok
            &&& packet.subrange(12, 16) == TUN_CLIENT_IP@
        }),
{
}

/// What [`open_proxy`] sends: under the key of the connection, a frame with all of
/// the target and all of the data that were there, in this order.
pub proof fn law_open_proxy_sends_target_and_data(
    password: &str,
    salt: &[u8],
    target: Socks5Addr,
    first_data: &[u8],
    wire: Vec<u8>,
    out: Result<(Frame, Vec<u8>), String>,
)
    requires
        call_ensures(open_proxy, (password, salt, &target, first_data), out),
        call_ensures(Socks5Addr::to_bytes, (&target,), wire),
    ensures
        wire@.len() + first_data@.len() > 65519 ==> (out matches Err(e) && e@
            == "payload too large"@),
        wire@.len() + first_data@.len() <= 65519 ==> match out {
            Ok((frame, bytes)) => {
                &&& frame@ == connection_key(password@, salt@)
                &&& bytes@.skip(14) == sealed(frame@, bytes@.take(12), wire@ + first_data@)
                &&& bytes@[12] as int * 256 + bytes@[13] as int == bytes@.len() - 14
            },
            Err(e) => e@ == "random source failed: "@ + "ring::error::Unspecified"@,
        },
{
    if let Ok((frame, bytes)) = out {
        lemma_carried(frame@, bytes@, wire@ + first_data@);
    }
}

/// What [`open_tun`] sends: under the key of the connection, a frame with the one
/// byte zero.
pub proof fn law_open_tun_sends_zero(
    password: &str,
    salt: &[u8],
    out: Result<(Frame, Vec<u8>), String>,
)
    requires
        call_ensures(open_tun, (password, salt), out),
    ensures
        match out {
            Ok((frame, bytes)) => {
                &&& frame@ == connection_key(password@, salt@)
                &&& bytes@.skip(14) == sealed(frame@, bytes@.take(12), seq![0u8])
                &&& bytes@[12] as int * 256 + bytes@[13] as int == bytes@.len() - 14
            },
            Err(e) => e@ == "random source failed: "@ + "ring::error::Unspecified"@,
        },
{
    if let Ok((frame, bytes)) = out {
        lemma_carried(frame@, bytes@, seq![0u8]);
    }
}

/// The parts of a frame that carries a payload.
proof fn lemma_carried(key: Seq<u8>, bytes: Seq<u8>, payload: Seq<u8>)
    requires
        carries(key, bytes, payload),
    ensures
        bytes.skip(14) == sealed(key, bytes.take(12), payload),
        bytes[12] as int * 256 + bytes[13] as int == bytes.len() - 14,
{
    let body = sealed(key, bytes.take(12), payload);
    assert(bytes.len() >= 14);
    assert(bytes == bytes.take(12) + be16(body.len() as u16) + body);
    assert(bytes.skip(14) =~= body);
    assert(frame_len(bytes) == bytes.len());
}

/// [`first_request`] takes the single byte zero for the tunnel device, and any
/// other payload for a target and data, as [`unpack_addr_payload`] reads them.
pub proof fn law_first_request_reads_the_payload(
    plain: &[u8],
    out: Result<Request, String>,
    unpacked: Result<(Socks5Addr, &[u8]), String>,
)
    requires
        call_ensures(first_request, (plain,), out),
        call_ensures(unpack_addr_payload, (plain,), unpacked),
    ensures
        plain@ == seq![0u8] ==> (out matches Ok(Request::Tun)),
        plain@ != seq![0u8] ==> match unpacked {
            Ok((target, data)) => out matches Ok(Request::Proxy(t, d)) && t@ == target@ && d@
                == data@,
            Err(e) => out matches Err(f) && f@ == "bad first payload: "@ + e@,
        },
{
}

/// The text of [`dial_address`] for a name: behind its last colon stands the port,
/// and before it the name as it is.
pub proof fn law_dialled_name(domain: String, port: u16, text: String)
    requires
        call_ensures(dial_address, (&Socks5Addr::Domain(domain, port),), text),
    ensures
        rsplit_once(text@, ':') matches Some((host, digits)) && host == domain@ && parse_number(
            digits,
            10,
            65535,
        ) == Ok::<nat, NumError>(port as nat),
{
    lemma_port_behind_host(domain@, port);
}

/// The text of [`dial_address`] for an IPv4 address: behind its last colon stands
/// the port, and before it the four numbers of the address between dots.
pub proof fn law_dialled_ipv4(ip: [u8; 4], port: u16, text: String)
    requires
        call_ensures(dial_address, (&Socks5Addr::IPv4(ip, port),), text),
    ensures
        rsplit_once(text@, ':') matches Some((host, digits)) && parse_number(digits, 10, 65535)
            == Ok::<nat, NumError>(port as nat) && ({
            let parts = split_all(host, '.');
            &&& parts.len() == 4
            &&& parse_number(parts[0], 10, 255) == Ok::<nat, NumError>(ip@[0] as nat)
            &&& parse_number(parts[1], 10, 255) == Ok::<nat, NumError>(ip@[1] as nat)
            &&& parse_number(parts[2], 10, 255) == Ok::<nat, NumError>(ip@[2] as nat)
            &&& parse_number(parts[3], 10, 255) == Ok::<nat, NumError>(ip@[3] as nat)
        }),
{
    let a = dec(ip@[0] as nat);
    let b = dec(ip@[1] as nat);
    let c = dec(ip@[2] as nat);
    let d = dec(ip@[3] as nat);
    let host = a + seq!['.'] + b + seq!['.'] + c + seq!['.'] + d;
    lemma_port_behind_host(host, port);
    lemma_octet(ip@[0]);
    lemma_octet(ip@[1]);
    lemma_octet(ip@[2]);
    lemma_octet(ip@[3]);
    lemma_four_parts(a, b, c, d);
}

/// Four texts between dots are split into the four texts.
pub proof fn lemma_four_parts(a: Seq<char>, b: Seq<char>, c: Seq<char>, d: Seq<char>)
    requires
        forall|i: int| 0 <= i < a.len() ==> #[trigger] a[i] != '.',
        forall|i: int| 0 <= i < b.len() ==> #[trigger] b[i] != '.',
        forall|i: int| 0 <= i < c.len() ==> #[trigger] c[i] != '.',
        forall|i: int| 0 <= i < d.len() ==> #[trigger] d[i] != '.',
    ensures
        split_all(a + seq!['.'] + b + seq!['.'] + c + seq!['.'] + d, '.') == seq![a, b, c, d],
{
    let cd = c + seq!['.'] + d;
    let bcd = b + seq!['.'] + cd;
    law_split_at_character(a, '.', bcd);
    law_split_at_character(b, '.', cd);
    law_split_at_character(c, '.', d);
    law_split_at_character(d, '.', d);
    assert(a + seq!['.'] + b + seq!['.'] + c + seq!['.'] + d =~= a + seq!['.'] + bcd);
    assert(seq![a] + (seq![b] + (seq![c] + seq![d])) =~= seq![a, b, c, d]);
}

/// The text of [`dial_address`] for an IPv6 address: behind its last colon stands
/// the port, and before it, in brackets, the sixteen bytes of the address, two
/// hexadecimal digits each, between colons.
pub proof fn law_dialled_ipv6(ip: [u8; 16], port: u16, text: String, i: int)
    requires
        call_ensures(dial_address, (&Socks5Addr::IPv6(ip, port),), text),
        0 <= i < 16,
    ensures
        rsplit_once(text@, ':') matches Some((host, digits)) && parse_number(digits, 10, 65535)
            == Ok::<nat, NumError>(port as nat) && host.len() == 49 && host[0] == '[' && host[48]
            == ']' && parse_digits(host.subrange(3 * i + 1, 3 * i + 3), 16, 255) == Ok::<
            nat,
            NumError,
        >(ip@[i] as nat) && (i > 0 ==> host[3 * i] == ':'),
{
    let groups = hex_groups(ip@);
    let host = seq!['['] + groups + seq![']'];
    lemma_port_behind_host(host, port);
    assert(text@ =~= host + seq![':'] + dec(port as nat));
    lemma_hex_groups(ip@, i);
    law_byte_digits(ip@[i]);
    assert(host.subrange(3 * i + 1, 3 * i + 3) =~= groups.subrange(3 * i, 3 * i + 2));
    assert(i > 0 ==> host[3 * i] == groups[3 * i - 1]);
}

/// The port stands behind the last colon.
proof fn lemma_port_behind_host(host: Seq<char>, port: u16)
    ensures
        rsplit_once(host + seq![':'] + dec(port as nat), ':') == Some((host, dec(port as nat))),
        parse_number(dec(port as nat), 10, 65535) == Ok::<nat, NumError>(port as nat),
{
    lemma_dec_chars(port as nat);
    law_decimal_round_trip(port as nat, 65535);
    law_split_at_character(host, ':', dec(port as nat));
}

/// An octet in decimal holds no dot and is read back.
pub proof fn lemma_octet(b: u8)
    ensures
        forall|i: int| 0 <= i < dec(b as nat).len() ==> #[trigger] dec(b as nat)[i] != '.',
        parse_number(dec(b as nat), 10, 255) == Ok::<nat, NumError>(b as nat),
{
    lemma_dec_chars(b as nat);
    law_decimal_round_trip(b as nat, 255);
}

/// Every byte stands as two digits, with a colon before all but the first.
proof fn lemma_hex_groups(bytes: Seq<u8>, i: int)
    requires
        bytes.len() > 0,
    ensures
        hex_groups(bytes).len() == 3 * bytes.len() - 1,
        0 <= i < bytes.len() ==> hex_groups(bytes).subrange(3 * i, 3 * i + 2) == hex2(bytes[i]),
        0 < i < bytes.len() ==> hex_groups(bytes)[3 * i - 1] == ':',
    decreases bytes.len(),
{
    let s = hex_groups(bytes);
    let last = bytes.len() - 1;
    if bytes.len() > 1 {
        let front = bytes.drop_last();
        lemma_hex_groups(front, i);
        let before = hex_groups(front);
        assert(s == before + seq![':'] + hex2(bytes.last()));
        if i == last {
            assert(s.subrange(3 * i, 3 * i + 2) =~= hex2(bytes[i]));
        } else if 0 <= i < last {
            assert(s.subrange(3 * i, 3 * i + 2) =~= before.subrange(3 * i, 3 * i + 2));
            if i > 0 {
                assert(s[3 * i - 1] == before[3 * i - 1]);
            }
        }
    } else if i == 0 {
        assert(s.subrange(0, 2) =~= hex2(bytes[0]));
    }
}

/// What the two ends hand to their devices: the payload of the frame, as it is,
/// where the check for that direction passes, and else the words of the first
/// thing that failed.
pub proof fn law_inbound_packets_are_decoded_and_checked(
    frame: Frame,
    header: &[u8],
    ciphertext: &[u8],
    both: &[u8],
    decoded_whole: Result<(Vec<u8>, usize), String>,
    packet: &[u8],
    from_client: Result<(), String>,
    to_client: Result<(), String>,
    at_server: Result<Vec<u8>, String>,
    at_client: Result<Vec<u8>, String>,
)
    requires
        call_ensures(Frame::decode, (&frame, both), decoded_whole),
        both@ == header@ + ciphertext@,
        decoded_whole matches Ok((plain, _)) ==> packet@ == plain@,
        call_ensures(validate_tun_packet, (packet,), from_client),
        call_ensures(validate_tun_response, (packet,), to_client),
        call_ensures(server_inbound, (&frame, header, ciphertext), at_server),
        call_ensures(client_inbound, (&frame, header, ciphertext), at_client),
    ensures
        match decoded_whole {
            Err(e) => (at_server matches Err(f) && f@ == e@) && (at_client matches Err(f) && f@
                == e@),
            Ok((plain, _)) => {
                &&& match from_client {
                    Ok(()) => at_server matches Ok(p) && p@ == plain@,
                    Err(e) => at_server matches Err(f) && f@ == e@,
                }
                &&& match to_client {
                    Ok(()) => at_client matches Ok(p) && p@ == plain@,
                    Err(e) => at_client matches Err(f) && f@ == e@,
                }
            },
        },
{
}

/// What the server sends of its device: a packet for the client whole in one
/// frame, and nothing else.
pub proof fn law_server_sends_packets_for_the_client(
    frame: Frame,
    packet: &[u8],
    to_client: Result<(), String>,
    out: Result<Vec<u8>, String>,
)
    requires
        call_ensures(validate_tun_response, (packet,), to_client),
        call_ensures(server_outbound, (&frame, packet), out),
    ensures
        packet@.len() == 0 ==> (out matches Err(e) && e@ == "ss-tun0 closed"@),
        packet@.len() > 0 ==> match to_client {
            Err(e) => out matches Err(f) && f@ == e@,
            Ok(()) => match out {
                Ok(bytes) => bytes@.skip(14) == sealed(frame@, bytes@.take(12), packet@),
                Err(e) => e@ == "random source failed: "@ + "ring::error::Unspecified"@,
            },
        },
{
    if let Ok(bytes) = out {
        if packet@.len() > 0 && to_client is Ok {
            lemma_carried(frame@, bytes@, packet@);
        }
    }
}

/// What the client sends of its device: every packet of version four whole in one
/// frame, and no packet of any other version.
pub proof fn law_client_sends_ipv4_packets(
    frame: Frame,
    packet: &[u8],
    out: Result<Option<Vec<u8>>, String>,
)
    requires
        call_ensures(client_outbound, (&frame, packet), out),
    ensures
        packet@.len() == 0 ==> (out matches Err(e) && e@ == "Wintun adapter closed"@),
        packet@.len() > 0 && (packet@[0] < 0x40 || packet@[0] > 0x4f) ==> (out matches Ok(None)),
        packet@.len() > 65519 && 0x40 <= packet@[0] <= 0x4f ==> (out matches Err(e) && e@
            == "payload too large"@),
        0 < packet@.len() <= 65519 && 0x40 <= packet@[0] <= 0x4f ==> match out {
            Ok(sent) => sent matches Some(bytes) && bytes@.skip(14) == sealed(
                frame@,
                bytes@.take(12),
                packet@,
            ),
            Err(e) => e@ == "random source failed: "@ + "ring::error::Unspecified"@,
        },
{
    if 0 < packet@.len() && 0x40 <= packet@[0] <= 0x4f {
        if let Ok(Some(bytes)) = out {
            lemma_carried(frame@, bytes@, packet@);
        }
    }
}

/// Of two clients that ask for the device one after the other, only the first
/// gets it, unless it gives it back in between.
pub proof fn law_one_client_has_the_device(
    slot: &mut TunSlot,
    out: Result<(), String>,
)
    requires
        call_ensures(TunSlot::acquire, (slot,), out),
    ensures
        old(slot).taken ==> (out matches Err(e) && e@ == "another TUN client is already connected"@),
        !old(slot).taken ==> out is Ok,
        final(slot).taken,
{
}

/// All traffic goes to the very address that was given, if it is IPv4.
pub proof fn law_tun_server_is_the_given_one(
    parsed: Option<(Option<[u8; 4]>, u16)>,
    out: Result<([u8; 4], u16), String>,
)
    requires
        call_ensures(tun_server, (parsed,), out),
    ensures
        parsed is None ==> (out matches Err(e) && e@
            == "TUN mode requires --server to be an IPv4 address and port"@),
        parsed matches Some((None, _)) ==> (out matches Err(e) && e@
            == "TUN mode requires an IPv4 server address"@),
        parsed matches Some((Some(ip), port)) ==> (out matches Ok((i, p)) && i == ip && p == port),
{
}

} // verus!
