//! The IPv4 packets that may cross the tunnel device.

use crate::address::{be16, law_be16_denotes, read_be16};
use vstd::prelude::*;

verus! {

/// The longest packet that the tunnel device carries.
pub const TUN_MTU: usize = 1400;

/// The address of the client inside the tunnel.
pub const TUN_CLIENT_IP: [u8; 4] = [10, 8, 0, 2];

/// Whether `packet` is one whole IPv4 packet of a length that the device
/// carries: the version is four, the header is at least twenty bytes and inside
/// the packet, and the total length that it states is the length it has.
pub open spec fn ipv4_packet(packet: Seq<u8>) -> Result<(), Seq<char>> {
    if packet.len() < 20 || packet.len() > TUN_MTU {
        Err("invalid IPv4 packet length"@)
    } else if packet[0] / 16 != 4 {
        Err("not an IPv4 packet"@)
    } else if packet[0] % 16 * 4 < 20 || packet[0] % 16 * 4 > packet.len() {
        Err("invalid IPv4 header length"@)
    } else if packet[2] * 256 + packet[3] != packet.len() {
        Err("invalid IPv4 total length"@)
    } else {
        Ok(())
    }
}

/// Whether `packet` is an IPv4 packet that the client may send.
pub open spec fn tun_packet(packet: Seq<u8>) -> Result<(), Seq<char>> {
    match ipv4_packet(packet) {
        Err(e) => Err(e),
        Ok(()) => if packet.subrange(12, 16) != TUN_CLIENT_IP@ {
            Err("invalid TUN source address"@)
        } else {
            Ok(())
        },
    }
}

/// Whether `packet` is an IPv4 packet that the client may receive.
pub open spec fn tun_response(packet: Seq<u8>) -> Result<(), Seq<char>> {
    match ipv4_packet(packet) {
        Err(e) => Err(e),
        Ok(()) => if packet.subrange(16, 20) != TUN_CLIENT_IP@ {
            Err("invalid TUN destination address"@)
        } else {
            Ok(())
        },
    }
}

/// Whether the four bytes of `packet` at `at` are the address of the client.
fn holds_client_ip(packet: &[u8], at: usize) -> (same: bool)
    requires
        at + 4 <= packet@.len(),
    ensures
        same == (packet@.subrange(at as int, at + 4) == TUN_CLIENT_IP@),
{
    let ip = TUN_CLIENT_IP;
    let same = packet[at] == ip[0] && packet[at + 1] == ip[1] && packet[at + 2] == ip[2]
        && packet[at + 3] == ip[3];
    proof {
        let found = packet@.subrange(at as int, at + 4);
        if same {
            assert(found =~= ip@);
        } else {
            assert(found[0] == packet@[at as int] && found[1] == packet@[at + 1] && found[2]
                == packet@[at + 2] && found[3] == packet@[at + 3]);
        }
    }
    same
}

/// Checks a packet on its way from the client.
pub fn validate_tun_packet(packet: &[u8]) -> (result: Result<(), String>)
    ensures
        match result {
            Ok(()) => tun_packet(packet@) == Ok::<(), Seq<char>>(()),
            Err(e) => tun_packet(packet@) == Err::<(), Seq<char>>(e@),
        },
{
    validate_ipv4_packet(packet)?;
    if !holds_client_ip(packet, 12) {
        return Err("invalid TUN source address".to_owned());
    }
    Ok(())
}

/// Checks a packet on its way to the client.
pub fn validate_tun_response(packet: &[u8]) -> (result: Result<(), String>)
    ensures
        match result {
            Ok(()) => tun_response(packet@) == Ok::<(), Seq<char>>(()),
            Err(e) => tun_response(packet@) == Err::<(), Seq<char>>(e@),
        },
{
    validate_ipv4_packet(packet)?;
    if !holds_client_ip(packet, 16) {
        return Err("invalid TUN destination address".to_owned());
    }
    Ok(())
}

/// Checks that `packet` is one whole IPv4 packet.
pub fn validate_ipv4_packet(packet: &[u8]) -> (result: Result<(), String>)
    ensures
        match result {
            Ok(()) => ipv4_packet(packet@) == Ok::<(), Seq<char>>(()),
            Err(e) => ipv4_packet(packet@) == Err::<(), Seq<char>>(e@),
        },
{
    if packet.len() < 20 || packet.len() > TUN_MTU {
        return Err("invalid IPv4 packet length".to_owned());
    }
    if packet[0] / 16 != 4 {
        return Err("not an IPv4 packet".to_owned());
    }
    let header_len = (packet[0] % 16) as usize * 4;
    if header_len < 20 || header_len > packet.len() {
        return Err("invalid IPv4 header length".to_owned());
    }
    let total_len = read_be16(packet[2], packet[3]) as usize;
    if total_len != packet.len() {
        return Err("invalid IPv4 total length".to_owned());
    }
    Ok(())
}

/// What passes in either direction is a whole IPv4 packet of at most
/// [`TUN_MTU`] bytes.
pub proof fn law_valid_packets_are_whole(packet: Seq<u8>)
    requires
        tun_packet(packet) is Ok || tun_response(packet) is Ok,
    ensures
        ipv4_packet(packet) is Ok,
        20 <= packet.len() <= TUN_MTU,
        packet[0] / 16 == 4,
{
}

/// What the checks of packets accept, in bytes: [`validate_ipv4_packet`] every
/// packet of 20 to 1400 bytes with version four, a header that fits, and its own
/// length in the third and fourth byte; [`validate_tun_packet`] and
/// [`validate_tun_response`] those of them with the client's address as source
/// and as destination. None of them accepts anything else.
pub proof fn law_whole_packets_pass(
    packet: &[u8],
    any: Result<(), String>,
    from_client: Result<(), String>,
    to_client: Result<(), String>,
)
    requires
        call_ensures(validate_ipv4_packet, (packet,), any),
        call_ensures(validate_tun_packet, (packet,), from_client),
        call_ensures(validate_tun_response, (packet,), to_client),
    ensures
        ({
            let p = packet@;
            let whole = 20 <= p.len() <= 1400 && 0x45 <= p[0] <= 0x4f && (p[0] - 0x40) * 4 <= p.len()
                && p.subrange(2, 4) == be16(p.len() as u16);
            let client = seq![10u8, 8u8, 0u8, 2u8];
            &&& any is Ok <==> whole
            &&& from_client is Ok <==> whole && p.subrange(12, 16) == client
            &&& to_client is Ok <==> whole && p.subrange(16, 20) == client
        }),
{
    let p = packet@;
    assert(TUN_CLIENT_IP@ =~= seq![10u8, 8u8, 0u8, 2u8]);
    if 20 <= p.len() <= 1400 {
        let len = p.len() as u16;
        let stated = p.subrange(2, 4);
        assert(stated[0] == p[2] && stated[1] == p[3]);
        law_be16_denotes(len, p[2], p[3]);
        if p[2] * 256 + p[3] == len {
            assert(stated =~= be16(len));
        }
        if stated == be16(len) {
            assert(p[2] * 256 + p[3] == len);
        }
    }
}

/// A packet is refused with the words for its first fault.
pub proof fn law_faults_of_packets_are_told(
    packet: &[u8],
    any: Result<(), String>,
    from_client: Result<(), String>,
    to_client: Result<(), String>,
)
    requires
        call_ensures(validate_ipv4_packet, (packet,), any),
        call_ensures(validate_tun_packet, (packet,), from_client),
        call_ensures(validate_tun_response, (packet,), to_client),
    ensures
        ({
            let p = packet@;
            &&& p.len() < 20 || p.len() > 1400 ==> (any matches Err(e) && e@
                == "invalid IPv4 packet length"@)
            &&& 20 <= p.len() <= 1400 && (p[0] < 0x40 || p[0] > 0x4f) ==> (any matches Err(e) && e@
                == "not an IPv4 packet"@)
            &&& 20 <= p.len() <= 1400 && 0x40 <= p[0] <= 0x4f && (p[0] < 0x45 || (p[0] - 0x40) * 4
                > p.len()) ==> (any matches Err(e) && e@ == "invalid IPv4 header length"@)
            &&& 20 <= p.len() <= 1400 && 0x45 <= p[0] <= 0x4f && (p[0] - 0x40) * 4 <= p.len() && p[2]
                * 256 + p[3] != p.len() ==> (any matches Err(e) && e@
                == "invalid IPv4 total length"@)
            &&& any matches Err(e) ==> (from_client matches Err(f) && f@ == e@) && (
            to_client matches Err(t) && t@ == e@)
            &&& any is Ok && from_client is Err ==> (from_client matches Err(e) && e@
                == "invalid TUN source address"@)
            &&& any is Ok && to_client is Err ==> (to_client matches Err(e) && e@
                == "invalid TUN destination address"@)
        }),
{
}

} // verus!
