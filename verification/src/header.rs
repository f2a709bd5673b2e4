//! The fixed 40-octet IPv6 header and its wire form.

use vstd::prelude::*;
use crate::address::Address;
use crate::packet::{
    packet_destination, packet_hop_limit, packet_next_header, packet_payload,
    packet_payload_length, packet_source, packet_version,
};

verus! {

/// Length in octets of the fixed IPv6 header.
pub const IPV6_HEADER_LEN: usize = 40;

/// IP version number carried in the high nibble of the first header octet.
pub const IP_VERSION: u8 = 6;

/// Largest value of the 20-bit flow label.
pub const MAX_FLOW_LABEL: u32 = 0xF_FFFF;

/// The fields of a fixed IPv6 header. The version is always 6 and is not held.
#[derive(Clone, Copy, Debug, PartialEq, Eq)]
pub struct Ipv6Header {
    pub traffic_class: u8,
    /// Only a label of at most 20 bits can be written.
    pub flow_label: u32,
    /// Number of octets that follow the fixed header.
    pub payload_length: u16,
    pub next_header: u8,
    pub hop_limit: u8,
    pub source: Address,
    pub destination: Address,
}

/// What a header is to the contracts: its fields, with each address as a run
/// of octets.
pub struct Ipv6HeaderView {
    pub traffic_class: u8,
    pub flow_label: u32,
    pub payload_length: u16,
    pub next_header: u8,
    pub hop_limit: u8,
    pub source: Seq<u8>,
    pub destination: Seq<u8>,
}

impl Ipv6HeaderView {
    /// A header can be written when its flow label fits in 20 bits and each
    /// address has sixteen octets.
    pub open spec fn valid(self) -> bool {
        &&& self.flow_label <= MAX_FLOW_LABEL
        &&& self.source.len() == 16
        &&& self.destination.len() == 16
    }

    /// The first eight octets of the wire form: version, traffic class and
    /// flow label packed into four octets, then the payload length in network
    /// byte order, the next-header number and the hop limit.
    pub open spec fn fixed_octets(self) -> Seq<u8> {
        seq![
            (0x60 + self.traffic_class / 16) as u8,
            ((self.traffic_class % 16) * 16 + self.flow_label / 0x1_0000) as u8,
            ((self.flow_label / 0x100) % 0x100) as u8,
            (self.flow_label % 0x100) as u8,
            (self.payload_length / 0x100) as u8,
            (self.payload_length % 0x100) as u8,
            self.next_header,
            self.hop_limit,
        ]
    }

    /// The 40 octets of the header as they travel on the wire.
    pub open spec fn wire_bytes(self) -> Seq<u8> {
        self.fixed_octets() + self.source + self.destination
    }
}

impl View for Ipv6Header {
    type V = Ipv6HeaderView;

    open spec fn view(&self) -> Ipv6HeaderView {
        Ipv6HeaderView {
            traffic_class: self.traffic_class,
            flow_label: self.flow_label,
            payload_length: self.payload_length,
            next_header: self.next_header,
            hop_limit: self.hop_limit,
            source: self.source@,
            destination: self.destination@,
        }
    }
}

impl Ipv6Header {
    /// Whether the flow label fits in 20 bits, so that the header can be
    /// written.
    pub fn is_valid(&self) -> (ok: bool)
        ensures
            ok == self@.valid(),
    {
        self.flow_label <= MAX_FLOW_LABEL
    }
}

/// Serialises a header with `etherparse::Ipv6Header::write` into a fresh
/// buffer. Trusted: the octets written are taken to be the wire form above,
/// which is what that crate's `to_bytes` lays out field by field; writing into
/// a `Vec` cannot fail, and a flow label of at most 20 bits is accepted by
/// `Ipv6FlowLabel::try_new`.
#[verifier::external_body]
fn etherparse_write_header(header: &Ipv6Header) -> (bytes: Vec<u8>)
    requires
        header@.valid(),
    ensures
        bytes@ == header@.wire_bytes(),
{
    let outside = etherparse::Ipv6Header {
        traffic_class: header.traffic_class,
        flow_label: etherparse::Ipv6FlowLabel::try_new(header.flow_label).unwrap(),
        payload_length: header.payload_length,
        next_header: etherparse::IpNumber(header.next_header),
        hop_limit: header.hop_limit,
        source: header.source.octets,
        destination: header.destination.octets,
    };
    let mut bytes = Vec::new();
    outside.write(&mut bytes).unwrap();
    bytes
}

/// Writes an IPv6 header to a buffer.
pub fn ipv6_header_to_bytes(header: &Ipv6Header) -> (bytes: Vec<u8>)
    requires
        header@.valid(),
    ensures
        bytes@ == header@.wire_bytes(),
        bytes@.len() == IPV6_HEADER_LEN,
{
    etherparse_write_header(header)
}

/// A header that is written can be read back: in a packet made of the wire
/// form of a header and a payload, each field is found at its offset with the
/// value the header holds, the version is 6, and the payload follows the 40
/// octets of the header.
pub proof fn lemma_wire_bytes_read_back(header: Ipv6HeaderView, payload: Seq<u8>)
    requires
        header.valid(),
    ensures
        header.wire_bytes().len() == IPV6_HEADER_LEN,
        ({
            let packet = header.wire_bytes() + payload;
            &&& packet_version(packet) == IP_VERSION
            &&& packet_payload_length(packet) == header.payload_length
            &&& packet_next_header(packet) == header.next_header
            &&& packet_hop_limit(packet) == header.hop_limit
            &&& packet_source(packet) == header.source
            &&& packet_destination(packet) == header.destination
            &&& packet_payload(packet) == payload
        }),
{
    let packet = header.wire_bytes() + payload;
    assert(packet_source(packet) =~= header.source);
    assert(packet_destination(packet) =~= header.destination);
    assert(packet_payload(packet) =~= payload);
}

} // verus!
