//! Target addresses and their encoding on the wire.
//!
//! An address is one type byte, the host, and the port in big-endian order. A
//! domain name is preceded by its length in one byte.

use crate::text::{dec, from_utf8_lossy, lossy_text, push_dec};
use vstd::prelude::*;
use vstd::utf8::{encode_utf8, valid_utf8};

verus! {

/// The host and port that a connection is for.
#[derive(Debug, Clone)]
pub enum Socks5Addr {
    IPv4([u8; 4], u16),
    Domain(String, u16),
    IPv6([u8; 16], u16),
}

/// An address as a mathematical value.
pub enum Addr {
    IPv4(Seq<u8>, u16),
    Domain(Seq<char>, u16),
    IPv6(Seq<u8>, u16),
}

impl View for Socks5Addr {
    type V = Addr;

    open spec fn view(&self) -> Addr {
        match self {
            Socks5Addr::IPv4(ip, port) => Addr::IPv4(ip@, *port),
            Socks5Addr::Domain(domain, port) => Addr::Domain(domain@, *port),
            Socks5Addr::IPv6(ip, port) => Addr::IPv6(ip@, *port),
        }
    }
}

/// The two bytes of `x`, the more significant one first.
pub open spec fn be16(x: u16) -> Seq<u8> {
    seq![(x / 256) as u8, (x % 256) as u8]
}

/// The number whose more significant byte is `hi`.
pub open spec fn from_be16(hi: u8, lo: u8) -> u16 {
    (hi * 256 + lo) as u16
}

/// Appends the two bytes of `x`.
pub fn push_be16(out: &mut Vec<u8>, x: u16)
    ensures
        final(out)@ == old(out)@ + be16(x),
{
    let ghost start = out@;
    out.push((x / 256) as u8);
    out.push((x % 256) as u8);
    assert(out@ == start + be16(x));
}

/// The number whose more significant byte is `hi`.
pub fn read_be16(hi: u8, lo: u8) -> (x: u16)
    ensures
        x == from_be16(hi, lo),
        x == hi * 256 + lo,
{
    hi as u16 * 256 + lo as u16
}

impl Addr {
    /// IPv4 hosts are four bytes and IPv6 hosts sixteen.
    pub open spec fn wf(self) -> bool {
        match self {
            Addr::IPv4(ip, _) => ip.len() == 4,
            Addr::Domain(_, _) => true,
            Addr::IPv6(ip, _) => ip.len() == 16,
        }
    }

    /// The length of the domain name, if any, fits in its length byte.
    pub open spec fn fits(self) -> bool {
        match self {
            Addr::Domain(domain, _) => encode_utf8(domain).len() <= 255,
            _ => true,
        }
    }

    /// The address on the wire. The length byte of a domain name holds the
    /// length modulo 256.
    pub open spec fn encode(self) -> Seq<u8> {
        match self {
            Addr::IPv4(ip, port) => seq![1u8] + ip + be16(port),
            Addr::Domain(domain, port) => {
                let name = encode_utf8(domain);
                seq![3u8, (name.len() % 256) as u8] + name + be16(port)
            },
            Addr::IPv6(ip, port) => seq![4u8] + ip + be16(port),
        }
    }
}

/// The address at the front of `data` and how many bytes it takes, or the
/// reason why there is none.
pub open spec fn decode_addr(data: Seq<u8>) -> Result<(Addr, nat), Seq<char>> {
    if data.len() == 0 {
        Err("empty address data"@)
    } else if data[0] == 1 {
        if data.len() < 7 {
            Err("IPv4 address too short"@)
        } else {
            Ok((Addr::IPv4(data.subrange(1, 5), from_be16(data[5], data[6])), 7))
        }
    } else if data[0] == 3 {
        if data.len() < 2 {
            Err("domain address too short"@)
        } else {
            let len = data[1] as int;
            if data.len() < len + 4 {
                Err("domain address truncated"@)
            } else {
                Ok(
                    (
                        Addr::Domain(
                            lossy_text(data.subrange(2, 2 + len)),
                            from_be16(data[2 + len], data[3 + len]),
                        ),
                        (len + 4) as nat,
                    ),
                )
            }
        }
    } else if data[0] == 4 {
        if data.len() < 19 {
            Err("IPv6 address too short"@)
        } else {
            Ok((Addr::IPv6(data.subrange(1, 17), from_be16(data[17], data[18])), 19))
        }
    } else {
        Err("unknown address type: "@ + dec(data[0] as nat))
    }
}

impl Socks5Addr {
    /// The address on the wire.
    pub fn to_bytes(&self) -> (bytes: Vec<u8>)
        ensures
            bytes@ == self@.encode(),
    {
        let mut buf: Vec<u8> = Vec::new();
        match self {
            Socks5Addr::IPv4(addr, port) => {
                buf.push(0x01);
                buf.extend_from_slice(addr);
                push_be16(&mut buf, *port);
            },
            Socks5Addr::Domain(domain, port) => {
                buf.push(0x03);
                let domain_bytes = domain.as_str().as_bytes();
                buf.push((domain_bytes.len() % 256) as u8);
                buf.extend_from_slice(domain_bytes);
                push_be16(&mut buf, *port);
            },
            Socks5Addr::IPv6(addr, port) => {
                buf.push(0x04);
                buf.extend_from_slice(addr);
                push_be16(&mut buf, *port);
            },
        }
        assert(buf@ == self@.encode());
        buf
    }

    /// The address at the front of `data` and how many bytes it takes.
    pub fn from_bytes(data: &[u8]) -> (result: Result<(Self, usize), String>)
        ensures
            match result {
                Ok((addr, n)) => decode_addr(data@) == Ok::<(Addr, nat), Seq<char>>(
                    (addr@, n as nat),
                ),
                Err(e) => decode_addr(data@) == Err::<(Addr, nat), Seq<char>>(e@),
            },
    {
        if data.len() == 0 {
            return Err("empty address data".to_owned());
        }
        let atyp = data[0];
        match atyp {
            0x01 => {
                if data.len() < 7 {
                    return Err("IPv4 address too short".to_owned());
                }
                let addr: [u8; 4] = [data[1], data[2], data[3], data[4]];
                let port = read_be16(data[5], data[6]);
                assert(addr@ == data@.subrange(1, 5));
                Ok((Socks5Addr::IPv4(addr, port), 7))
            },
            0x03 => {
                if data.len() < 2 {
                    return Err("domain address too short".to_owned());
                }
                let len = data[1] as usize;
                let end = 2 + len + 2;
                if data.len() < end {
                    return Err("domain address truncated".to_owned());
                }
                let domain = from_utf8_lossy(vstd::slice::slice_subrange(data, 2, 2 + len));
                let port = read_be16(data[2 + len], data[2 + len + 1]);
                Ok((Socks5Addr::Domain(domain, port), end))
            },
            0x04 => {
                if data.len() < 19 {
                    return Err("IPv6 address too short".to_owned());
                }
                let addr: [u8; 16] = [
                    data[1], data[2], data[3], data[4], data[5], data[6], data[7], data[8],
                    data[9], data[10], data[11], data[12], data[13], data[14], data[15], data[16],
                ];
                let port = read_be16(data[17], data[18]);
                assert(addr@ == data@.subrange(1, 17));
                Ok((Socks5Addr::IPv6(addr, port), 19))
            },
            _ => {
                let mut message = "unknown address type: ".to_owned();
                push_dec(&mut message, atyp as u64);
                Err(message)
            },
        }
    }
}

/// Splitting a number into two bytes and putting them together gives the
/// number back, and the other way round.
pub proof fn law_be16_round_trip(x: u16, hi: u8, lo: u8)
    ensures
        from_be16(be16(x)[0], be16(x)[1]) == x,
        be16(from_be16(hi, lo)) == seq![hi, lo],
{
    assert(be16(from_be16(hi, lo)) =~= seq![hi, lo]);
}

/// Reading back an address whose name fits its length byte gives that address
/// and leaves exactly what follows it.
pub proof fn law_address_round_trip(addr: Addr, rest: Seq<u8>)
    requires
        addr.wf(),
        addr.fits(),
    ensures
        decode_addr(addr.encode() + rest) == Ok::<(Addr, nat), Seq<char>>(
            (addr, addr.encode().len()),
        ),
        (addr.encode() + rest).skip(addr.encode().len() as int) == rest,
{
    broadcast use vstd::utf8::encode_utf8_valid_utf8, vstd::utf8::encode_utf8_decode_utf8;

    let wire = addr.encode();
    let data = wire + rest;
    assert(data.skip(wire.len() as int) =~= rest);
    match addr {
        Addr::IPv4(ip, port) => {
            assert(data.subrange(1, 5) =~= ip);
        },
        Addr::Domain(domain, port) => {
            let name = encode_utf8(domain);
            assert(data[1] == name.len());
            assert(data.subrange(2, 2 + name.len() as int) =~= name);
            assert(lossy_text(name) == domain);
        },
        Addr::IPv6(ip, port) => {
            assert(data.subrange(1, 17) =~= ip);
        },
    }
}

/// Writing a decoded address gives back the bytes it was read from, as long as
/// its name, if it is a name, was UTF-8.
pub proof fn law_address_reencodes(data: Seq<u8>)
    requires
        decode_addr(data) is Ok,
        data[0] == 3 ==> valid_utf8(data.subrange(2, 2 + data[1])),
    ensures
        decode_addr(data)->Ok_0.1 <= data.len(),
        decode_addr(data)->Ok_0.0.encode() == data.take(decode_addr(data)->Ok_0.1 as int),
{
    broadcast use vstd::utf8::decode_utf8_encode_utf8;

    let (addr, n) = decode_addr(data)->Ok_0;
    if data[0] == 3 {
        let name = data.subrange(2, 2 + data[1]);
        assert(encode_utf8(lossy_text(name)) == name);
    }
    assert(addr.encode() =~= data.take(n as int));
}

/// The two bytes of a number denote it, the first one in steps of 256.
pub proof fn law_be16_denotes(x: u16, hi: u8, lo: u8)
    ensures
        be16(x).len() == 2,
        be16(x)[0] as int * 256 + be16(x)[1] as int == x,
        from_be16(hi, lo) as int == hi as int * 256 + lo as int,
{
}

/// What [`Socks5Addr::to_bytes`] writes, for every address: the type, the host
/// as it is, and the port. Before a name stands its length, as far as a byte
/// holds it.
pub proof fn law_to_bytes_writes_all(addr: Socks5Addr, bytes: Vec<u8>)
    requires
        call_ensures(Socks5Addr::to_bytes, (&addr,), bytes),
    ensures
        ({
            let n = bytes@.len() as int;
            let port = bytes@[n - 2] as int * 256 + bytes@[n - 1] as int;
            &&& n >= 4
            &&& addr matches Socks5Addr::IPv4(ip, p) ==> port == p && bytes@.take(n - 2)
                == seq![1u8] + ip@
            &&& addr matches Socks5Addr::Domain(name, p) ==> port == p && bytes@.take(n - 2).skip(2)
                == encode_utf8(name@) && bytes@[0] == 3 && bytes@[1] as int == encode_utf8(
                name@,
            ).len() % 256
            &&& addr matches Socks5Addr::IPv6(ip, p) ==> port == p && bytes@.take(n - 2)
                == seq![4u8] + ip@
        }),
{
    let n = bytes@.len() as int;
    match addr {
        Socks5Addr::IPv4(ip, p) => {
            assert(bytes@.take(n - 2) =~= seq![1u8] + ip@);
        },
        Socks5Addr::Domain(name, p) => {
            assert(bytes@.take(n - 2).skip(2) =~= encode_utf8(name@));
        },
        Socks5Addr::IPv6(ip, p) => {
            assert(bytes@.take(n - 2) =~= seq![4u8] + ip@);
        },
    }
}

/// What [`Socks5Addr::from_bytes`] reads of a host of the right length and two
/// bytes of a port, whatever they hold and whatever follows.
pub proof fn law_from_bytes_reads_all(
    data: &[u8],
    out: Result<(Socks5Addr, usize), String>,
    host: Seq<u8>,
    hi: u8,
    lo: u8,
    rest: Seq<u8>,
)
    requires
        call_ensures(Socks5Addr::from_bytes, (data,), out),
    ensures
        host.len() == 4 && data@ == seq![1u8] + host + seq![hi, lo] + rest ==> {
            &&& out matches Ok((Socks5Addr::IPv4(ip, port), n))
            &&& ip@ == host && port == hi as int * 256 + lo as int && n == 7
        },
        host.len() <= 255 && data@ == seq![3u8, host.len() as u8] + host + seq![hi, lo] + rest ==> {
            &&& out matches Ok((Socks5Addr::Domain(name, port), n))
            &&& name@ == lossy_text(host) && port == hi as int * 256 + lo as int && n == host.len()
                + 4
        },
        host.len() == 16 && data@ == seq![4u8] + host + seq![hi, lo] + rest ==> {
            &&& out matches Ok((Socks5Addr::IPv6(ip, port), n))
            &&& ip@ == host && port == hi as int * 256 + lo as int && n == 19
        },
{
    if host.len() == 4 && data@ == seq![1u8] + host + seq![hi, lo] + rest {
        assert(data@.subrange(1, 5) =~= host);
    }
    if host.len() <= 255 && data@ == seq![3u8, host.len() as u8] + host + seq![hi, lo] + rest {
        assert(data@.subrange(2, 2 + host.len() as int) =~= host);
    }
    if host.len() == 16 && data@ == seq![4u8] + host + seq![hi, lo] + rest {
        assert(data@.subrange(1, 17) =~= host);
    }
}

/// What [`Socks5Addr::from_bytes`] refuses, and with which words.
pub proof fn law_from_bytes_refuses(data: &[u8], out: Result<(Socks5Addr, usize), String>)
    requires
        call_ensures(Socks5Addr::from_bytes, (data,), out),
    ensures
        ({
            let d = data@;
            &&& d.len() == 0 ==> (out matches Err(e) && e@ == "empty address data"@)
            &&& d.len() > 0 && d[0] == 1 && d.len() < 7 ==> (out matches Err(e) && e@
                == "IPv4 address too short"@)
            &&& d.len() == 1 && d[0] == 3 ==> (out matches Err(e) && e@
                == "domain address too short"@)
            &&& d.len() > 1 && d[0] == 3 && d.len() < d[1] + 4 ==> (out matches Err(e) && e@
                == "domain address truncated"@)
            &&& d.len() > 0 && d[0] == 4 && d.len() < 19 ==> (out matches Err(e) && e@
                == "IPv6 address too short"@)
            &&& d.len() > 0 && d[0] != 1 && d[0] != 3 && d[0] != 4 ==> (out matches Err(e) && e@
                == "unknown address type: "@ + dec(d[0] as nat))
            &&& out is Err ==> d.len() == 0 || (d[0] == 1 && d.len() < 7) || (d[0] == 3 && (d.len()
                == 1 || d.len() < d[1] + 4)) || (d[0] == 4 && d.len() < 19) || (d[0] != 1 && d[0]
                != 3 && d[0] != 4)
        }),
{
}

} // verus!
