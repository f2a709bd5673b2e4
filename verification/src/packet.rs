//! Read-only access to the fields of an inbound IPv6 packet, each at its fixed
//! offset in the header.

use vstd::prelude::*;
use vstd::slice::slice_subrange;
use crate::address::{Address, ipv6_from_octets};
use crate::header::IPV6_HEADER_LEN;

verus! {

/// The IP version: the high nibble of octet 0.
pub open spec fn packet_version(packet: Seq<u8>) -> u8 {
    packet[0] / 16
}

/// The payload length: octets 4 and 5 in network byte order.
pub open spec fn packet_payload_length(packet: Seq<u8>) -> nat {
    (packet[4] as nat) * 256 + (packet[5] as nat)
}

/// The next-header number: octet 6.
pub open spec fn packet_next_header(packet: Seq<u8>) -> u8 {
    packet[6]
}

/// The hop limit: octet 7.
pub open spec fn packet_hop_limit(packet: Seq<u8>) -> u8 {
    packet[7]
}

/// The source address: octets 8 to 23.
pub open spec fn packet_source(packet: Seq<u8>) -> Seq<u8> {
    packet.subrange(8, 24)
}

/// The destination address: octets 24 to 39.
pub open spec fn packet_destination(packet: Seq<u8>) -> Seq<u8> {
    packet.subrange(24, 40)
}

/// What follows the fixed header: octets 40 to the end.
pub open spec fn packet_payload(packet: Seq<u8>) -> Seq<u8> {
    packet.subrange(40, packet.len() as int)
}

/// A received IPv6 packet: a borrowed buffer that is known to hold at least
/// the 40 octets of the fixed header.
#[derive(Clone, Copy, Debug)]
pub struct Ipv6Packet<'a> {
    bytes: &'a [u8],
}

impl<'a> View for Ipv6Packet<'a> {
    type V = Seq<u8>;

    closed spec fn view(&self) -> Seq<u8> {
        self.bytes@
    }
}

impl<'a> Ipv6Packet<'a> {
    #[verifier::type_invariant]
    spec fn holds_header(self) -> bool {
        self.bytes@.len() >= IPV6_HEADER_LEN
    }

    /// Views a buffer as a packet, unless it is too short to hold the fixed
    /// header.
    pub fn new(bytes: &'a [u8]) -> (packet: Option<Ipv6Packet<'a>>)
        ensures
            packet is Some <==> bytes@.len() >= IPV6_HEADER_LEN,
            packet is Some ==> packet.unwrap()@ == bytes@,
    {
        if bytes.len() >= IPV6_HEADER_LEN {
            Some(Ipv6Packet { bytes })
        } else {
            None
        }
    }

    /// The whole packet, header included.
    pub fn bytes(&self) -> (bytes: &'a [u8])
        ensures
            bytes@ == self@,
            self@.len() >= IPV6_HEADER_LEN,
    {
        proof {
            use_type_invariant(self);
        }
        self.bytes
    }

    /// Number of octets in the packet, header included.
    pub fn len(&self) -> (len: usize)
        ensures
            len == self@.len(),
            len >= IPV6_HEADER_LEN,
    {
        proof {
            use_type_invariant(self);
        }
        self.bytes.len()
    }

    /// The IP version field.
    pub fn version(&self) -> (version: u8)
        ensures
            version == packet_version(self@),
    {
        proof {
            use_type_invariant(self);
        }
        let first = self.bytes[0];
        proof {
            assert(first >> 4 == first / 16) by (bit_vector);
        }
        first >> 4
    }

    /// The payload length field.
    pub fn payload_length(&self) -> (length: u16)
        ensures
            length == packet_payload_length(self@),
    {
        proof {
            use_type_invariant(self);
        }
        (self.bytes[4] as u16) * 256 + (self.bytes[5] as u16)
    }

    /// The next-header field.
    pub fn next_header(&self) -> (number: u8)
        ensures
            number == packet_next_header(self@),
    {
        proof {
            use_type_invariant(self);
        }
        self.bytes[6]
    }

    /// The hop limit field.
    pub fn hop_limit(&self) -> (limit: u8)
        ensures
            limit == packet_hop_limit(self@),
    {
        proof {
            use_type_invariant(self);
        }
        self.bytes[7]
    }

    /// The source address.
    pub fn source(&self) -> (addr: Address)
        ensures
            addr@ == packet_source(self@),
    {
        proof {
            use_type_invariant(self);
        }
        let field = slice_subrange(self.bytes, 8, 24);
        let addr = ipv6_from_octets(field);
        proof {
            assert(addr@ =~= packet_source(self@));
        }
        addr
    }

    /// The destination address.
    pub fn destination(&self) -> (addr: Address)
        ensures
            addr@ == packet_destination(self@),
    {
        proof {
            use_type_invariant(self);
        }
        let field = slice_subrange(self.bytes, 24, 40);
        let addr = ipv6_from_octets(field);
        proof {
            assert(addr@ =~= packet_destination(self@));
        }
        addr
    }

    /// The octets that follow the fixed header.
    pub fn payload(&self) -> (payload: &'a [u8])
        ensures
            payload@ == packet_payload(self@),
    {
        proof {
            use_type_invariant(self);
        }
        slice_subrange(self.bytes, IPV6_HEADER_LEN, self.bytes.len())
    }
}

} // verus!
