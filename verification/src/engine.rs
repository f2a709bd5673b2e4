//! The packet engine: decides whether a received frame is answered, and
//! builds the reply frame.

use vstd::prelude::*;
use vstd::slice::slice_subrange;
use crate::address::{Address, lemma_be_octets_len};
use crate::checksum::{
    calculate_checksum, checksum_bytes, fold_carries, lemma_checksum_verifies, pseudo_header,
    word_sum, PROTOCOL_NUMBER,
};
use crate::header::{Ipv6HeaderView, IPV6_HEADER_LEN, IP_VERSION};
use crate::packet::{
    Ipv6Packet, packet_destination, packet_hop_limit, packet_next_header, packet_payload,
    packet_payload_length, packet_source, packet_version,
};
use crate::subnet::{network_value, Subnet, SubnetView};

verus! {

/// Length of the link-layer prefix that precedes the IP packet in every
/// frame of the tunnel.
pub const LINK_PREFIX_LEN: usize = 4;

/// Length of the shortest frame that is considered: the link prefix and a
/// fixed IPv6 header.
pub const MIN_FRAME_LEN: usize = 44;

/// Length of the fixed portion of the reply message: type, code, checksum and
/// four unused octets.
pub const MESSAGE_HEADER_LEN: usize = 8;

/// Message type of every reply.
pub const MESSAGE_TYPE: u8 = 3;

/// Message code of every reply.
pub const MESSAGE_CODE: u8 = 0;

/// Hop limit of every reply.
pub const REPLY_HOP_LIMIT: u8 = 64;

/// Longest inbound packet that a reply can echo: with the fixed portion of
/// the message in front of it, it must fit the 16-bit payload length.
pub const MAX_ECHOED_LEN: usize = 65527;

/// Why a frame is left unanswered.
#[derive(Clone, Copy, Debug, PartialEq, Eq)]
pub enum DropReason {
    /// The frame is shorter than the link prefix and a fixed IPv6 header.
    TooShort,
    /// The version nibble of the packet is not 6.
    WrongVersion,
    /// The hop limit, taken as a host ordinal, is beyond the hosts of the
    /// subnet.
    NoSuchHost,
    /// The packet is too long to be echoed in one reply.
    TooLong,
}

/// The link prefix of a frame: its first four octets.
pub open spec fn frame_prefix(frame: Seq<u8>) -> Seq<u8> {
    frame.subrange(0, LINK_PREFIX_LEN as int)
}

/// The IP packet of a frame: all that follows the link prefix.
pub open spec fn frame_packet(frame: Seq<u8>) -> Seq<u8> {
    frame.subrange(LINK_PREFIX_LEN as int, frame.len() as int)
}

/// The checks a frame goes through, in order: the address of the host that
/// answers it, or the first reason for which it is dropped.
pub open spec fn verdict(subnet: SubnetView, frame: Seq<u8>) -> Result<Seq<u8>, DropReason> {
    let packet = frame_packet(frame);
    if frame.len() < MIN_FRAME_LEN {
        Err(DropReason::TooShort)
    } else if packet_version(packet) != IP_VERSION {
        Err(DropReason::WrongVersion)
    } else {
        match subnet.host(packet_hop_limit(packet) as nat) {
            None => Err(DropReason::NoSuchHost),
            Some(target) => if packet.len() > MAX_ECHOED_LEN {
                Err(DropReason::TooLong)
            } else {
                Ok(target)
            },
        }
    }
}

/// The IPv6 header of a reply that goes from `target` to `requester` and
/// echoes `echoed_len` octets.
pub open spec fn reply_header(target: Seq<u8>, requester: Seq<u8>, echoed_len: nat)
    -> Ipv6HeaderView {
    Ipv6HeaderView {
        traffic_class: 0,
        flow_label: 0,
        payload_length: (MESSAGE_HEADER_LEN + echoed_len) as u16,
        next_header: PROTOCOL_NUMBER,
        hop_limit: REPLY_HOP_LIMIT,
        source: target,
        destination: requester,
    }
}

/// The reply message with the given two octets in its checksum field: type,
/// code, checksum, four zero octets, then the echoed packet.
pub open spec fn message(checksum: Seq<u8>, echoed: Seq<u8>) -> Seq<u8> {
    seq![MESSAGE_TYPE, MESSAGE_CODE] + checksum + seq![0u8, 0u8, 0u8, 0u8] + echoed
}

/// The checksum of the reply message: taken over the pseudo-header and the
/// message with a zeroed checksum field.
pub open spec fn message_checksum(target: Seq<u8>, requester: Seq<u8>, echoed: Seq<u8>) -> Seq<u8> {
    checksum_bytes(
        pseudo_header(target, requester, MESSAGE_HEADER_LEN as nat + echoed.len()) + message(
            seq![0u8, 0u8],
            echoed,
        ),
    )
}

/// The reply frame: the link prefix of the request, the IPv6 header, and the
/// message that echoes the whole inbound packet.
pub open spec fn reply_frame(prefix: Seq<u8>, target: Seq<u8>, packet: Seq<u8>) -> Seq<u8> {
    let requester = packet_source(packet);
    prefix + reply_header(target, requester, packet.len()).wire_bytes() + message(
        message_checksum(target, requester, packet),
        packet,
    )
}

/// What the engine answers to a frame: the reply frame, or nothing when the
/// frame is dropped.
pub open spec fn response(subnet: SubnetView, frame: Seq<u8>) -> Option<Seq<u8>> {
    match verdict(subnet, frame) {
        Ok(target) => Some(reply_frame(frame_prefix(frame), target, frame_packet(frame))),
        Err(_) => None,
    }
}

/// Appends `bytes` to `out`.
fn append(out: &mut Vec<u8>, bytes: &[u8])
    ensures
        final(out)@ == old(out)@ + bytes@,
{
    let mut i: usize = 0;
    while i < bytes.len()
        invariant
            i <= bytes@.len(),
            out@ == old(out)@ + bytes@.subrange(0, i as int),
        decreases bytes@.len() - i,
    {
        out.push(bytes[i]);
        i += 1;
        proof {
            assert(out@ =~= old(out)@ + bytes@.subrange(0, i as int));
        }
    }
    proof {
        assert(bytes@.subrange(0, bytes@.len() as int) =~= bytes@);
    }
}

/// Runs the checks on a frame and selects the host that answers it.
pub fn select_target(subnet: &Subnet, frame: &[u8]) -> (outcome: Result<Address, DropReason>)
    ensures
        match outcome {
            Ok(target) => verdict(subnet@, frame@) == Ok::<Seq<u8>, DropReason>(target@),
            Err(reason) => verdict(subnet@, frame@) == Err::<Seq<u8>, DropReason>(reason),
        },
{
    if frame.len() < MIN_FRAME_LEN {
        return Err(DropReason::TooShort);
    }
    let inbound = slice_subrange(frame, LINK_PREFIX_LEN, frame.len());
    match Ipv6Packet::new(inbound) {
        None => Err(DropReason::TooShort),
        Some(packet) => {
            if packet.version() != IP_VERSION {
                return Err(DropReason::WrongVersion);
            }
            let index: usize = packet.hop_limit() as usize;
            match subnet.host(index) {
                None => Err(DropReason::NoSuchHost),
                Some(target) => {
                    if packet.len() > MAX_ECHOED_LEN {
                        Err(DropReason::TooLong)
                    } else {
                        Ok(target)
                    }
                },
            }
        },
    }
}

/// Builds the reply message for an echoed packet, checksum included.
fn build_message(target: Address, requester: Address, echoed: &[u8]) -> (out: Vec<u8>)
    requires
        echoed@.len() <= MAX_ECHOED_LEN,
    ensures
        out@ == message(message_checksum(target@, requester@, echoed@), echoed@),
{
    let mut out: Vec<u8> = Vec::new();
    out.push(MESSAGE_TYPE);
    out.push(MESSAGE_CODE);
    out.push(0);
    out.push(0);
    out.push(0);
    out.push(0);
    out.push(0);
    out.push(0);
    append(&mut out, echoed);
    proof {
        assert(out@ =~= message(seq![0u8, 0u8], echoed@));
    }
    let len: u16 = out.len() as u16;
    let sum = calculate_checksum(out.as_slice(), target, requester, len);
    out[2] = sum[0];
    out[3] = sum[1];
    proof {
        assert(out@ =~= message(message_checksum(target@, requester@, echoed@), echoed@));
    }
    out
}

/// Builds the reply frame that answers `packet` in the name of `target`: the
/// link prefix, an IPv6 header from `target` to the source of the packet, and
/// a message that echoes the packet.
pub fn build_reply(prefix: &[u8], target: Address, packet: &Ipv6Packet) -> (frame: Vec<u8>)
    requires
        prefix@.len() == LINK_PREFIX_LEN,
        packet@.len() <= MAX_ECHOED_LEN,
    ensures
        frame@ == reply_frame(prefix@, target@, packet@),
{
    let requester = packet.source();
    let body = build_message(target, requester, packet.bytes());
    let length: usize = body.len();
    let mut frame: Vec<u8> = Vec::new();
    append(&mut frame, prefix);
    frame.push(0x60);
    frame.push(0);
    frame.push(0);
    frame.push(0);
    frame.push((length / 256) as u8);
    frame.push((length % 256) as u8);
    frame.push(PROTOCOL_NUMBER);
    frame.push(REPLY_HOP_LIMIT);
    append(&mut frame, target.octets.as_slice());
    append(&mut frame, requester.octets.as_slice());
    append(&mut frame, body.as_slice());
    proof {
        let header = reply_header(target@, requester@, packet@.len());
        assert(header.payload_length == length);
        assert(frame@ =~= reply_frame(prefix@, target@, packet@));
    }
    frame
}

/// Handles one frame read from the tunnel: returns the reply frame to send
/// back, or nothing when the frame is dropped.
pub fn handle(subnet: &Subnet, frame: &[u8]) -> (reply: Option<Vec<u8>>)
    ensures
        match reply {
            Some(bytes) => response(subnet@, frame@) == Some(bytes@),
            None => response(subnet@, frame@) is None,
        },
{
    match select_target(subnet, frame) {
        Err(_) => None,
        Ok(target) => {
            let prefix = slice_subrange(frame, 0, LINK_PREFIX_LEN);
            let inbound = slice_subrange(frame, LINK_PREFIX_LEN, frame.len());
            match Ipv6Packet::new(inbound) {
                None => None,
                Some(packet) => Some(build_reply(prefix, target, &packet)),
            }
        },
    }
}

/// A frame is answered exactly when it holds a whole IPv6 header behind the
/// link prefix, its version is 6, its hop limit is the ordinal of a host of
/// the subnet, and its packet is short enough to be echoed.
pub proof fn lemma_answered_iff(subnet: SubnetView, frame: Seq<u8>)
    ensures
        response(subnet, frame) is Some <==> {
            &&& frame.len() >= MIN_FRAME_LEN
            &&& frame[4] / 16 == 6
            &&& frame[11] < subnet.capacity()
            &&& frame.len() <= LINK_PREFIX_LEN + MAX_ECHOED_LEN
        },
{
}

/// A frame shorter than the link prefix and a fixed IPv6 header gets no reply.
pub proof fn lemma_short_frame_dropped(subnet: SubnetView, frame: Seq<u8>)
    requires
        frame.len() < MIN_FRAME_LEN,
    ensures
        response(subnet, frame) is None,
        verdict(subnet, frame) == Err::<Seq<u8>, DropReason>(DropReason::TooShort),
{
}

/// A frame whose version nibble is not 6 gets no reply, whatever its other
/// octets hold and whatever the subnet.
pub proof fn lemma_wrong_version_dropped(subnet: SubnetView, frame: Seq<u8>)
    requires
        frame.len() > LINK_PREFIX_LEN,
        frame[4] / 16 != 6,
    ensures
        response(subnet, frame) is None,
        frame.len() >= MIN_FRAME_LEN ==> verdict(subnet, frame) == Err::<Seq<u8>, DropReason>(
            DropReason::WrongVersion,
        ),
{
}

/// A frame whose hop limit is not below the number of hosts in the subnet
/// gets no reply.
pub proof fn lemma_index_overflow_dropped(subnet: SubnetView, frame: Seq<u8>)
    requires
        frame.len() > LINK_PREFIX_LEN + 7,
        frame[11] >= subnet.capacity(),
    ensures
        response(subnet, frame) is None,
        frame.len() >= MIN_FRAME_LEN && frame[4] / 16 == 6 ==> verdict(subnet, frame) == Err::<
            Seq<u8>,
            DropReason,
        >(DropReason::NoSuchHost),
{
}

/// The layout of a reply: it is 48 octets longer than the request, starts
/// with the link prefix of the request, and carries an IPv6 header of version
/// 6 with a payload length of 8 plus the length of the inbound packet, the
/// protocol number of ICMPv6 and hop limit 64, followed by a message of type
/// 3 and code 0 with four zero octets after its checksum.
pub proof fn lemma_reply_layout(subnet: SubnetView, frame: Seq<u8>)
    requires
        response(subnet, frame) is Some,
    ensures
        ({
            let reply = response(subnet, frame).unwrap();
            let outbound = frame_packet(reply);
            &&& reply.len() == frame.len() + IPV6_HEADER_LEN + MESSAGE_HEADER_LEN
            &&& frame_prefix(reply) == frame_prefix(frame)
            &&& packet_version(outbound) == IP_VERSION
            &&& outbound[0] == 0x60 && outbound[1] == 0 && outbound[2] == 0 && outbound[3] == 0
            &&& packet_payload_length(outbound) == MESSAGE_HEADER_LEN + frame_packet(frame).len()
            &&& packet_payload_length(outbound) == packet_payload(outbound).len()
            &&& packet_next_header(outbound) == PROTOCOL_NUMBER
            &&& packet_hop_limit(outbound) == REPLY_HOP_LIMIT
            &&& packet_payload(outbound)[0] == MESSAGE_TYPE
            &&& packet_payload(outbound)[1] == MESSAGE_CODE
            &&& packet_payload(outbound).subrange(4, 8) == seq![0u8, 0u8, 0u8, 0u8]
        }),
{
    lemma_be_octets_len(
        (network_value(subnet.addr, subnet.prefix_len) + frame[11]) as nat,
        16,
    );
    let reply = response(subnet, frame).unwrap();
    let outbound = frame_packet(reply);
    assert(frame_prefix(reply) =~= frame_prefix(frame));
    assert(packet_payload(outbound).subrange(4, 8) =~= seq![0u8, 0u8, 0u8, 0u8]);
}

/// The reply is sent by the selected host to the sender of the request: its
/// source address is the host whose ordinal is the hop limit of the request,
/// and its destination address is the source address of the request.
pub proof fn lemma_reply_addresses(subnet: SubnetView, frame: Seq<u8>)
    requires
        response(subnet, frame) is Some,
    ensures
        ({
            let outbound = frame_packet(response(subnet, frame).unwrap());
            let inbound = frame_packet(frame);
            &&& subnet.host(packet_hop_limit(inbound) as nat) == Some(packet_source(outbound))
            &&& packet_destination(outbound) == packet_source(inbound)
        }),
{
    lemma_be_octets_len(
        (network_value(subnet.addr, subnet.prefix_len) + frame[11]) as nat,
        16,
    );
    let outbound = frame_packet(response(subnet, frame).unwrap());
    let inbound = frame_packet(frame);
    let target = subnet.host(packet_hop_limit(inbound) as nat).unwrap();
    assert(packet_source(outbound) =~= target);
    assert(packet_destination(outbound) =~= packet_source(inbound));
}

/// The reply echoes the request: what follows the eight fixed octets of the
/// reply message is the whole inbound packet, octet for octet.
pub proof fn lemma_reply_echoes_packet(subnet: SubnetView, frame: Seq<u8>)
    requires
        response(subnet, frame) is Some,
    ensures
        packet_payload(frame_packet(response(subnet, frame).unwrap())).skip(
            MESSAGE_HEADER_LEN as int,
        ) == frame_packet(frame),
{
    lemma_be_octets_len(
        (network_value(subnet.addr, subnet.prefix_len) + frame[11]) as nat,
        16,
    );
    assert(packet_payload(frame_packet(response(subnet, frame).unwrap())).skip(
        MESSAGE_HEADER_LEN as int,
    ) =~= frame_packet(frame));
}

/// The checksum stored in a reply is the one that a reader finds again: taken
/// over the pseudo-header made of the addresses and message length of the
/// reply, followed by the message with its checksum field zeroed, the checksum
/// equals the two octets stored in that field.
pub proof fn lemma_reply_checksum_round_trip(subnet: SubnetView, frame: Seq<u8>)
    requires
        response(subnet, frame) is Some,
    ensures
        ({
            let outbound = frame_packet(response(subnet, frame).unwrap());
            let body = packet_payload(outbound);
            checksum_bytes(
                pseudo_header(packet_source(outbound), packet_destination(outbound), body.len())
                    + body.update(2, 0u8).update(3, 0u8),
            ) == body.subrange(2, 4)
        }),
{
    lemma_be_octets_len(
        (network_value(subnet.addr, subnet.prefix_len) + frame[11]) as nat,
        16,
    );
    let inbound = frame_packet(frame);
    let target = subnet.host(packet_hop_limit(inbound) as nat).unwrap();
    let requester = packet_source(inbound);
    let outbound = frame_packet(response(subnet, frame).unwrap());
    let body = packet_payload(outbound);
    let stored = message_checksum(target, requester, inbound);
    assert(packet_source(outbound) =~= target);
    assert(packet_destination(outbound) =~= requester);
    assert(body =~= message(stored, inbound));
    assert(body.update(2, 0u8).update(3, 0u8) =~= message(seq![0u8, 0u8], inbound));
    assert(body.subrange(2, 4) =~= stored);
}

/// The checksum of a reply verifies: the words of the pseudo-header and of
/// the message as it is sent, checksum included, fold to all ones.
pub proof fn lemma_reply_checksum_verifies(subnet: SubnetView, frame: Seq<u8>)
    requires
        response(subnet, frame) is Some,
    ensures
        ({
            let outbound = frame_packet(response(subnet, frame).unwrap());
            let body = packet_payload(outbound);
            fold_carries(
                word_sum(
                    pseudo_header(packet_source(outbound), packet_destination(outbound), body.len())
                        + body,
                ),
            ) == 0xFFFF
        }),
{
    lemma_be_octets_len(
        (network_value(subnet.addr, subnet.prefix_len) + frame[11]) as nat,
        16,
    );
    let inbound = frame_packet(frame);
    let target = subnet.host(packet_hop_limit(inbound) as nat).unwrap();
    let requester = packet_source(inbound);
    let outbound = frame_packet(response(subnet, frame).unwrap());
    let body = packet_payload(outbound);
    let stored = message_checksum(target, requester, inbound);
    let zeroed = pseudo_header(target, requester, body.len()) + message(seq![0u8, 0u8], inbound);
    assert(packet_source(outbound) =~= target);
    assert(packet_destination(outbound) =~= requester);
    assert(body =~= message(stored, inbound));
    lemma_checksum_verifies(zeroed, 42);
    assert(zeroed.update(42, stored[0]).update(43, stored[1]) =~= pseudo_header(
        target,
        requester,
        body.len(),
    ) + body);
}

} // verus!
