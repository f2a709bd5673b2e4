use hop_responder::address::Address;
use hop_responder::checksum::{calculate_checksum, icmpv6_checksum};
use hop_responder::engine::{build_reply, handle, select_target, DropReason};
use hop_responder::packet::Ipv6Packet;
use hop_responder::subnet::Subnet;

const PREFIX: [u8; 4] = [0x00, 0x00, 0x86, 0xdd];

fn fd00(last: &[u8]) -> Address {
    let mut octets = [0u8; 16];
    octets[0] = 0xfd;
    let start = 16 - last.len();
    octets[start..].copy_from_slice(last);
    Address { octets }
}

fn subnet(prefix_len: u8) -> Subnet {
    Subnet::new(fd00(&[]), prefix_len).unwrap()
}

fn inbound_packet(hop_limit: u8, source: Address, payload: &[u8]) -> Vec<u8> {
    let mut packet = vec![0x60, 0, 0, 0];
    packet.push((payload.len() / 256) as u8);
    packet.push((payload.len() % 256) as u8);
    packet.push(59);
    packet.push(hop_limit);
    packet.extend_from_slice(&source.octets);
    packet.extend_from_slice(&fd00(&[0x02]).octets);
    packet.extend_from_slice(payload);
    packet
}

fn frame_of(packet: &[u8]) -> Vec<u8> {
    let mut frame = PREFIX.to_vec();
    frame.extend_from_slice(packet);
    frame
}

#[test]
fn concrete_scenario_minimal_header() {
    let source = fd00(&[0xde, 0xad]);
    let packet = inbound_packet(1, source, &[]);
    assert_eq!(packet.len(), 40);
    let reply = handle(&subnet(64), &frame_of(&packet)).unwrap();

    assert_eq!(reply.len(), 4 + 40 + 8 + 40);
    assert_eq!(&reply[0..4], &PREFIX[..]);
    // version 6, traffic class and flow label zero
    assert_eq!(&reply[4..8], &[0x60, 0, 0, 0][..]);
    // payload length 8 + 40
    assert_eq!(&reply[8..10], &[0, 48][..]);
    // next header, hop limit
    assert_eq!(reply[10], 58);
    assert_eq!(reply[11], 64);
    // source is host 1 of the subnet, destination the requester
    assert_eq!(&reply[12..28], &fd00(&[0x01]).octets[..]);
    assert_eq!(&reply[28..44], &source.octets[..]);
    // message: type 3, code 0, checksum, four zero octets
    assert_eq!(reply[44], 3);
    assert_eq!(reply[45], 0);
    assert_eq!(&reply[46..48], &[0xb0, 0x31][..]);
    assert_ne!(&reply[46..48], &[0, 0][..]);
    assert_eq!(&reply[48..52], &[0, 0, 0, 0][..]);
    // the echoed packet
    assert_eq!(&reply[52..], &packet[..]);
}

#[test]
fn reply_checksum_round_trip() {
    let source = fd00(&[0xde, 0xad]);
    let packet = inbound_packet(3, source, &[1, 2, 3, 4]);
    let reply = handle(&subnet(64), &frame_of(&packet)).unwrap();
    let stored = [reply[46], reply[47]];
    assert_eq!(stored, [0xac, 0x1f]);

    let mut message = reply[44..].to_vec();
    message[2] = 0;
    message[3] = 0;
    let reply_source = Address { octets: reply[12..28].try_into().unwrap() };
    let reply_destination = Address { octets: reply[28..44].try_into().unwrap() };
    let again = calculate_checksum(&message, reply_source, reply_destination, message.len() as u16);
    assert_eq!(again, stored);
}

#[test]
fn reply_checksum_agrees_with_pnet_on_whole_words() {
    let source = fd00(&[0xbe, 0xef]);
    let packet = inbound_packet(9, source, &[0x11, 0x22, 0x33, 0x44, 0x55, 0x66]);
    let reply = handle(&subnet(64), &frame_of(&packet)).unwrap();
    let reply_source = Address { octets: reply[12..28].try_into().unwrap() };
    let reply_destination = Address { octets: reply[28..44].try_into().unwrap() };
    let theirs = icmpv6_checksum(&reply[44..], &reply_source, &reply_destination);
    assert_eq!(theirs, [reply[46], reply[47]]);
}

#[test]
fn reply_with_odd_length_packet_leaves_last_octet_out_of_the_sum() {
    let source = fd00(&[0xde, 0xad]);
    let packet = inbound_packet(3, source, &[1, 2, 3, 4, 5]);
    let reply = handle(&subnet(64), &frame_of(&packet)).unwrap();
    assert_eq!(reply.len(), 4 + 40 + 8 + 45);
    assert_eq!(&reply[8..10], &[0, 53][..]);
    assert_eq!(&reply[46..48], &[0xac, 0x1d][..]);
    assert_eq!(&reply[52..], &packet[..]);
}

#[test]
fn address_swap() {
    let source = fd00(&[0x12, 0x34, 0x56, 0x78]);
    let net = subnet(64);
    for hop in [0u8, 1, 7, 200, 255] {
        let packet = inbound_packet(hop, source, &[0xaa, 0xbb]);
        let reply = handle(&net, &frame_of(&packet)).unwrap();
        let target = net.host(hop as usize).unwrap();
        assert_eq!(target, fd00(&[hop]));
        assert_eq!(&reply[12..28], &target.octets[..]);
        assert_eq!(&reply[28..44], &source.octets[..]);
    }
}

#[test]
fn echo_preservation() {
    let source = fd00(&[0x01, 0x02]);
    let payload: Vec<u8> = (0..=255u8).collect();
    let packet = inbound_packet(5, source, &payload);
    let reply = handle(&subnet(64), &frame_of(&packet)).unwrap();
    assert_eq!(&reply[52..], &packet[..]);
    assert_eq!(reply.len(), packet.len() + 52);
    let announced = (reply[8] as usize) * 256 + reply[9] as usize;
    assert_eq!(announced, 8 + packet.len());
}

#[test]
fn link_prefix_is_echoed() {
    let packet = inbound_packet(1, fd00(&[0x09]), &[]);
    let mut frame = vec![0xde, 0xad, 0xbe, 0xef];
    frame.extend_from_slice(&packet);
    let reply = handle(&subnet(64), &frame).unwrap();
    assert_eq!(&reply[0..4], &[0xde, 0xad, 0xbe, 0xef][..]);
}

#[test]
fn short_frames_are_dropped() {
    let net = subnet(64);
    let packet = inbound_packet(1, fd00(&[0x09]), &[]);
    let frame = frame_of(&packet);
    for len in 0..44 {
        assert!(handle(&net, &frame[..len]).is_none());
        assert_eq!(select_target(&net, &frame[..len]), Err(DropReason::TooShort));
    }
    assert!(handle(&net, &frame[..44]).is_some());
}

#[test]
fn wrong_version_is_dropped() {
    let net = subnet(64);
    let packet = inbound_packet(1, fd00(&[0x09]), &[7, 7]);
    for nibble in 0..16u8 {
        let mut frame = frame_of(&packet);
        frame[4] = (nibble << 4) | 0x0f;
        let reply = handle(&net, &frame);
        if nibble == 6 {
            assert!(reply.is_some());
        } else {
            assert!(reply.is_none());
            assert_eq!(select_target(&net, &frame), Err(DropReason::WrongVersion));
        }
    }
}

#[test]
fn index_beyond_the_subnet_is_dropped() {
    let net = subnet(121);
    let source = fd00(&[0x09]);
    let last = frame_of(&inbound_packet(127, source, &[]));
    let reply = handle(&net, &last).unwrap();
    assert_eq!(&reply[12..28], &fd00(&[127]).octets[..]);
    let beyond = frame_of(&inbound_packet(128, source, &[]));
    assert!(handle(&net, &beyond).is_none());
    assert_eq!(select_target(&net, &beyond), Err(DropReason::NoSuchHost));
    let far = frame_of(&inbound_packet(255, source, &[]));
    assert!(handle(&net, &far).is_none());
}

#[test]
fn single_address_subnet_answers_hop_limit_zero_only() {
    let only = fd00(&[0x42]);
    let net = Subnet::new(only, 128).unwrap();
    let source = fd00(&[0x09]);
    let reply = handle(&net, &frame_of(&inbound_packet(0, source, &[]))).unwrap();
    assert_eq!(&reply[12..28], &only.octets[..]);
    assert!(handle(&net, &frame_of(&inbound_packet(1, source, &[]))).is_none());
}

#[test]
fn longest_packet_is_answered_and_longer_is_dropped() {
    let net = subnet(64);
    let source = fd00(&[0xde, 0xad]);
    let payload = vec![0xab; 65527 - 40];
    let mut packet = inbound_packet(0, source, &payload);
    assert_eq!(packet.len(), 65527);
    let reply = handle(&net, &frame_of(&packet)).unwrap();
    assert_eq!(&reply[8..10], &[0xff, 0xff][..]);
    assert_eq!(&reply[46..48], &[0x9e, 0x81][..]);
    assert_eq!(reply.len(), 4 + 40 + 65535);

    packet.push(0xab);
    let frame = frame_of(&packet);
    assert!(handle(&net, &frame).is_none());
    assert_eq!(select_target(&net, &frame), Err(DropReason::TooLong));
}

#[test]
fn checks_run_in_order() {
    // A frame that is both of the wrong version and beyond the subnet is
    // reported for its version.
    let net = subnet(128);
    let mut frame = frame_of(&inbound_packet(9, fd00(&[0x09]), &[]));
    frame[4] = 0x40;
    assert_eq!(select_target(&net, &frame), Err(DropReason::WrongVersion));
    // Too long and beyond the subnet: the missing host comes first.
    let long = frame_of(&inbound_packet(9, fd00(&[0x09]), &vec![0; 65500]));
    assert_eq!(select_target(&net, &long), Err(DropReason::NoSuchHost));
}

#[test]
fn select_target_gives_the_host() {
    let net = subnet(64);
    let frame = frame_of(&inbound_packet(17, fd00(&[0x09]), &[1]));
    assert_eq!(select_target(&net, &frame), Ok(fd00(&[17])));
}

#[test]
fn build_reply_matches_handle() {
    let net = subnet(64);
    let packet = inbound_packet(4, fd00(&[0x77]), &[9, 8, 7, 6]);
    let frame = frame_of(&packet);
    let view = Ipv6Packet::new(&packet).unwrap();
    let built = build_reply(&PREFIX, fd00(&[4]), &view);
    assert_eq!(Some(built), handle(&net, &frame));
}

#[test]
fn one_reply_per_frame_and_no_state() {
    let net = subnet(64);
    let frame = frame_of(&inbound_packet(2, fd00(&[0x77]), &[1, 2]));
    let first = handle(&net, &frame);
    let second = handle(&net, &frame);
    assert!(first.is_some());
    assert_eq!(first, second);
}

#[test]
fn reply_checksum_verifies_at_the_receiver() {
    let source = fd00(&[0xca, 0xfe]);
    let packet = inbound_packet(6, source, &[0x10, 0x20, 0x30, 0x40, 0x50, 0x60]);
    let reply = handle(&subnet(64), &frame_of(&packet)).unwrap();
    let message = &reply[44..];

    // Sum the pseudo-header and the message as sent, checksum included.
    let mut words: Vec<u8> = Vec::new();
    words.extend_from_slice(&reply[12..44]);
    words.extend_from_slice(&(message.len() as u32).to_be_bytes());
    words.extend_from_slice(&[0, 0, 0, 58]);
    words.extend_from_slice(message);
    let mut sum: u64 = 0;
    for pair in words.chunks_exact(2) {
        sum += (pair[0] as u64) * 256 + pair[1] as u64;
    }
    while sum > 0xffff {
        sum = (sum & 0xffff) + (sum >> 16);
    }
    assert_eq!(sum, 0xffff);
}
