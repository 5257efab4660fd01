//! The addresses in the fixed IPv4 header of an intercepted packet.
use vstd::prelude::*;
use crate::address::Ipv4Address;

verus! {

/// The address held by the four bytes of `b` from `i` on.
pub open spec fn address_at(b: Seq<u8>, i: int) -> Ipv4Address {
    Ipv4Address { a: b[i], b: b[i + 1], c: b[i + 2], d: b[i + 3] }
}

/// Source and destination of an IPv4 header: bytes 12 to 15 and 16 to 19 of
/// a payload that holds at least the 20 bytes of the fixed header.
pub open spec fn header_of(payload: Seq<u8>) -> Option<(Ipv4Address, Ipv4Address)> {
    if payload.len() >= 20 {
        Some((address_at(payload, 12), address_at(payload, 16)))
    } else {
        None
    }
}

/// The addresses of a payload that holds an IPv4 packet: one whose version
/// field, the high four bits of its first byte, is 4 and that holds the
/// fixed header.
pub open spec fn ipv4_addresses_of(payload: Seq<u8>) -> Option<(Ipv4Address, Ipv4Address)> {
    if payload.len() >= 1 && payload[0] / 16 == 4 {
        header_of(payload)
    } else {
        None
    }
}

/// Relies on pnet's `Ipv4Packet::new`, which gives `None` for a buffer
/// shorter than the 20 bytes of the fixed header and reads nothing else,
/// and on its `get_source` and `get_destination`, which read bytes 12 to 15
/// and 16 to 19 in order.
#[verifier::external_body]
pub(crate) fn ipv4_header(payload: &[u8]) -> (r: Option<(Ipv4Address, Ipv4Address)>)
    ensures
        r == header_of(payload@),
{
    match pnet::packet::ipv4::Ipv4Packet::new(payload) {
        Some(h) => {
            let s = h.get_source().octets();
            let d = h.get_destination().octets();
            Some((
                Ipv4Address { a: s[0], b: s[1], c: s[2], d: s[3] },
                Ipv4Address { a: d[0], b: d[1], c: d[2], d: d[3] },
            ))
        },
        None => None,
    }
}

} // verus!
