use hop_responder::address::Address;
use hop_responder::checksum::{calculate_checksum, checksum_to_be_bytes, icmpv6_checksum};

fn zero() -> Address {
    Address { octets: [0u8; 16] }
}

fn loopback() -> Address {
    let mut octets = [0u8; 16];
    octets[15] = 1;
    Address { octets }
}

#[test]
fn checksum_of_pseudo_header_alone() {
    // Only the protocol number 58 is summed: 0xFFFF - 0x003A.
    assert_eq!(calculate_checksum(&[], zero(), zero(), 0), [0xff, 0xc5]);
}

#[test]
fn checksum_counts_the_announced_length() {
    // 0x0008 + 0x003A = 0x0042
    assert_eq!(calculate_checksum(&[], zero(), zero(), 8), [0xff, 0xbd]);
    // 0x1234 + 0x003A = 0x126E
    assert_eq!(calculate_checksum(&[], zero(), zero(), 0x1234), [0xed, 0x91]);
}

#[test]
fn checksum_of_zero_is_written_as_zero() {
    // 0xFFC5 + 0x003A = 0xFFFF, whose complement is zero.
    assert_eq!(calculate_checksum(&[0xff, 0xc5], zero(), zero(), 0), [0x00, 0x00]);
}

#[test]
fn checksum_folds_carries() {
    // 0xFFFF + 0xFFFF + 0x003A = 0x2_0038, folded to 0x003A.
    assert_eq!(calculate_checksum(&[0xff, 0xff, 0xff, 0xff], zero(), zero(), 0), [0xff, 0xc5]);
    // 0xFFFF + 0x0001 + 0x003A = 0x1_003A, folded to 0x003B.
    assert_eq!(calculate_checksum(&[0xff, 0xff, 0x00, 0x01], zero(), zero(), 0), [0xff, 0xc4]);
}

#[test]
fn checksum_sums_both_addresses() {
    let mut source = [0u8; 16];
    source[0] = 0x01;
    source[1] = 0x02;
    let mut destination = [0u8; 16];
    destination[14] = 0x10;
    destination[15] = 0x20;
    // 0x0102 + 0x1020 + 0x003A = 0x115C
    let sum = calculate_checksum(
        &[],
        Address { octets: source },
        Address { octets: destination },
        0,
    );
    assert_eq!(sum, [0xee, 0xa3]);
}

#[test]
fn checksum_leaves_a_lone_last_octet_out() {
    let whole = calculate_checksum(&[0x12, 0x34], zero(), zero(), 0);
    let odd = calculate_checksum(&[0x12, 0x34, 0x56], zero(), zero(), 0);
    assert_eq!(whole, [0xed, 0x91]);
    assert_eq!(odd, whole);
    assert_eq!(calculate_checksum(&[0x56], zero(), zero(), 0), [0xff, 0xc5]);
}

#[test]
fn checksum_of_echo_request_to_loopback() {
    let message = [0x80, 0, 0, 0, 0, 0, 0, 0];
    assert_eq!(calculate_checksum(&message, loopback(), loopback(), 8), [0x7f, 0xbb]);
}

#[test]
fn checksum_of_a_long_buffer_does_not_overflow() {
    let data = vec![0xff; 300_000];
    // Every word is 0xFFFF, which leaves a folded sum unchanged.
    assert_eq!(calculate_checksum(&data, zero(), zero(), 0), [0xff, 0xc5]);
}

#[test]
fn checksum_to_be_bytes_puts_the_high_octet_first() {
    assert_eq!(checksum_to_be_bytes(0x1234), [0x12, 0x34]);
    assert_eq!(checksum_to_be_bytes(0x00ff), [0x00, 0xff]);
    assert_eq!(checksum_to_be_bytes(0xff00), [0xff, 0x00]);
    assert_eq!(checksum_to_be_bytes(0), [0, 0]);
}

#[test]
fn icmpv6_checksum_of_echo_request() {
    let data: [u8; 64] = [
        0x80, 0x00, 0xff, 0xff, 0x00, 0x00, 0x00, 0x01, 0x20, 0x20, 0x75, 0x73, 0x74, 0x20, 0x61,
        0x20, 0x66, 0x6c, 0x65, 0x73, 0x68, 0x20, 0x77, 0x6f, 0x75, 0x6e, 0x64, 0x20, 0x20, 0x74,
        0x69, 0x73, 0x20, 0x62, 0x75, 0x74, 0x20, 0x61, 0x20, 0x73, 0x63, 0x72, 0x61, 0x74, 0x63,
        0x68, 0x20, 0x20, 0x6b, 0x6e, 0x69, 0x67, 0x68, 0x74, 0x73, 0x20, 0x6f, 0x66, 0x20, 0x6e,
        0x69, 0x20, 0x20, 0x20,
    ];
    assert_eq!(icmpv6_checksum(&data, &loopback(), &loopback()), [0x1d, 0x2e]);
    let mut reply = data;
    reply[0] = 0x81;
    assert_eq!(icmpv6_checksum(&reply, &loopback(), &loopback()), [0x1c, 0x2e]);
}

#[test]
fn icmpv6_checksum_skips_the_checksum_field() {
    let with_zero = [0x80, 0, 0, 0, 0, 0, 0, 0];
    let with_ones = [0x80, 0, 0xff, 0xff, 0, 0, 0, 0];
    let a = icmpv6_checksum(&with_zero, &loopback(), &loopback());
    assert_eq!(a, [0x7f, 0xbb]);
    assert_eq!(icmpv6_checksum(&with_ones, &loopback(), &loopback()), a);
    // On a message of whole words with a zeroed field both computations agree.
    assert_eq!(calculate_checksum(&with_zero, loopback(), loopback(), 8), a);
}

#[test]
fn icmpv6_checksum_depends_on_the_addresses() {
    let message = [0x80, 0, 0, 0];
    let a = icmpv6_checksum(&message, &loopback(), &loopback());
    let b = icmpv6_checksum(&message, &loopback(), &zero());
    assert_eq!(a, [0x7f, 0xbf]);
    assert_eq!(b, [0x7f, 0xc0]);
}
