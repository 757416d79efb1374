//! The first payload of a proxy connection: the target, then data.

use crate::address::{decode_addr, law_address_round_trip, Addr, Socks5Addr};
use vstd::prelude::*;

verus! {

/// The target at the front of `data` and the bytes behind it.
pub open spec fn unpacked(data: Seq<u8>) -> Result<(Addr, Seq<u8>), Seq<char>> {
    match decode_addr(data) {
        Ok((addr, n)) => Ok((addr, data.skip(n as int))),
        Err(e) => Err(e),
    }
}

/// The target followed by `data`.
pub fn pack_addr_payload(addr: &Socks5Addr, data: &[u8]) -> (payload: Vec<u8>)
    ensures
        payload@ == addr@.encode() + data@,
{
    let mut payload = addr.to_bytes();
    payload.extend_from_slice(data);
    assert(payload@ == addr@.encode() + data@);
    payload
}

/// The target at the front of `data` and the bytes behind it.
pub fn unpack_addr_payload(data: &[u8]) -> (result: Result<(Socks5Addr, &[u8]), String>)
    ensures
        match result {
            Ok((addr, rest)) => unpacked(data@) == Ok::<(Addr, Seq<u8>), Seq<char>>(
                (addr@, rest@),
            ),
            Err(e) => unpacked(data@) == Err::<(Addr, Seq<u8>), Seq<char>>(e@),
        },
{
    match Socks5Addr::from_bytes(data) {
        Ok((addr, consumed)) => {
            let rest = vstd::slice::slice_subrange(data, consumed, data.len());
            assert(rest@ == data@.skip(consumed as int));
            Ok((addr, rest))
        },
        Err(e) => Err(e),
    }
}

/// Unpacking what was packed gives back the target and the data, for every
/// target whose name fits its length byte.
pub proof fn law_payload_round_trip(addr: Addr, data: Seq<u8>)
    requires
        addr.wf(),
        addr.fits(),
    ensures
        unpacked(addr.encode() + data) == Ok::<(Addr, Seq<u8>), Seq<char>>((addr, data)),
{
    law_address_round_trip(addr, data);
}

/// What [`pack_addr_payload`] puts together, [`unpack_addr_payload`] takes apart:
/// the data come back as they were, byte for byte, behind an address that is
/// read as [`Socks5Addr::from_bytes`] reads it.
pub proof fn law_unpacking_takes_the_address(
    data: &[u8],
    out: Result<(Socks5Addr, &[u8]), String>,
    address: Result<(Socks5Addr, usize), String>,
)
    requires
        call_ensures(unpack_addr_payload, (data,), out),
        call_ensures(Socks5Addr::from_bytes, (data,), address),
    ensures
        match address {
            Ok((target, n)) => out matches Ok((addr, rest)) && addr@ == target@ && n <= data@.len()
                && rest@ == data@.skip(n as int),
            Err(e) => out matches Err(f) && f@ == e@,
        },
{
}

/// A payload is the bytes of the address and then the data.
pub proof fn law_packing_appends_the_data(
    addr: Socks5Addr,
    data: &[u8],
    bytes: Vec<u8>,
    payload: Vec<u8>,
)
    requires
        call_ensures(Socks5Addr::to_bytes, (&addr,), bytes),
        call_ensures(pack_addr_payload, (&addr, data), payload),
    ensures
        payload@ == bytes@ + data@,
{
}

} // verus!
