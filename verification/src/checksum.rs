//! The Internet checksum: a ones'-complement sum of 16-bit words, taken over
//! a pseudo-header followed by the upper-layer message.

use vstd::prelude::*;
use vstd::arithmetic::div_mod::lemma_mod_multiples_vanish;
use crate::address::Address;

verus! {

/// Length in octets of the pseudo-header that precedes the message when its
/// checksum is computed.
pub const PSEUDO_HEADER_LEN: usize = 40;

/// Protocol number of ICMPv6, the last octet of the pseudo-header.
pub const PROTOCOL_NUMBER: u8 = 58;

/// The 16-bit word made of two octets, the first one being the high octet.
pub open spec fn word(high: u8, low: u8) -> nat {
    (high as nat) * 256 + (low as nat)
}

/// Sum of the 16-bit big-endian words of `bytes`, taken from the front. A
/// trailing octet that has no partner belongs to no word and is not summed.
pub open spec fn word_sum(bytes: Seq<u8>) -> nat
    decreases bytes.len(),
{
    if bytes.len() < 2 {
        0
    } else {
        word(bytes[0], bytes[1]) + word_sum(bytes.skip(2))
    }
}

/// Folds the carries of a sum back into its low 16 bits until the sum fits
/// in 16 bits.
pub open spec fn fold_carries(sum: nat) -> nat
    decreases sum,
{
    if sum <= 0xFFFF {
        sum
    } else {
        fold_carries(sum % 0x1_0000 + sum / 0x1_0000)
    }
}

/// The checksum of `bytes` as a number: the ones' complement of the folded
/// word sum.
pub open spec fn checksum_value(bytes: Seq<u8>) -> nat {
    (0xFFFF - fold_carries(word_sum(bytes))) as nat
}

/// The checksum of `bytes` as the two octets that go on the wire, high octet
/// first. A checksum of zero is written as two zero octets.
pub open spec fn checksum_bytes(bytes: Seq<u8>) -> Seq<u8> {
    seq![(checksum_value(bytes) / 256) as u8, (checksum_value(bytes) % 256) as u8]
}

/// The four octets of an upper-layer length in network byte order.
pub open spec fn length_octets(upper_len: nat) -> Seq<u8> {
    seq![
        ((upper_len / 0x100_0000) % 256) as u8,
        ((upper_len / 0x1_0000) % 256) as u8,
        ((upper_len / 0x100) % 256) as u8,
        (upper_len % 256) as u8,
    ]
}

/// The pseudo-header: source address, destination address, upper-layer length
/// as 32 bits in network byte order, three zero octets and the protocol
/// number.
pub open spec fn pseudo_header(source: Seq<u8>, destination: Seq<u8>, upper_len: nat) -> Seq<u8> {
    source + destination + length_octets(upper_len) + seq![0u8, 0u8, 0u8, PROTOCOL_NUMBER]
}

/// A folded sum fits in 16 bits, and is zero only for the sum zero.
pub proof fn lemma_fold_carries_bound(sum: nat)
    ensures
        fold_carries(sum) <= 0xFFFF,
        fold_carries(sum) == 0 <==> sum == 0,
    decreases sum,
{
    if sum > 0xFFFF {
        lemma_fold_carries_bound(sum % 0x1_0000 + sum / 0x1_0000);
    }
}

/// Folding is the residue modulo 65535, with 65535 standing for the residue
/// zero of every sum but zero itself.
pub proof fn lemma_fold_carries_residue(sum: nat)
    ensures
        fold_carries(sum) == if sum == 0 {
            0
        } else {
            (sum - 1) % 0xFFFF + 1
        },
    decreases sum,
{
    if sum > 0xFFFF {
        let next = sum % 0x1_0000 + sum / 0x1_0000;
        lemma_fold_carries_residue(next);
        let q = (sum / 0x1_0000) as int;
        assert(sum - 1 == 0xFFFF * q + (next - 1));
        lemma_mod_multiples_vanish(q, next - 1, 0xFFFF);
    }
}

/// A running sum may be folded at any time: folding before a further term is
/// added changes nothing in the folded total.
pub proof fn lemma_fold_carries_absorbs(sum: nat, term: nat)
    ensures
        fold_carries(fold_carries(sum) + term) == fold_carries(sum + term),
{
    lemma_fold_carries_residue(sum);
    lemma_fold_carries_residue(sum + term);
    lemma_fold_carries_residue(fold_carries(sum) + term);
    if sum > 0 {
        let q = (sum - 1) / 0xFFFF;
        let r = (sum - 1) % 0xFFFF;
        assert(sum + term - 1 == 0xFFFF * q + (r + term));
        lemma_mod_multiples_vanish(q, r + term, 0xFFFF);
    }
}

/// The word sum of two buffers laid end to end is the sum of their word sums,
/// provided the first one holds whole words only.
pub proof fn lemma_word_sum_concat(front: Seq<u8>, back: Seq<u8>)
    requires
        front.len() % 2 == 0,
    ensures
        word_sum(front + back) == word_sum(front) + word_sum(back),
    decreases front.len(),
{
    if front.len() == 0 {
        assert(front + back =~= back);
    } else {
        assert((front + back).skip(2) =~= front.skip(2) + back);
        lemma_word_sum_concat(front.skip(2), back);
    }
}

/// The word sum of a buffer, split at a word boundary around one of its
/// words: the sum of what precedes the word, the word, and what follows it.
pub proof fn lemma_word_sum_split(bytes: Seq<u8>, offset: int)
    requires
        0 <= offset,
        offset % 2 == 0,
        offset + 2 <= bytes.len(),
    ensures
        word_sum(bytes) == word_sum(bytes.take(offset)) + word(bytes[offset], bytes[offset + 1])
            + word_sum(bytes.skip(offset + 2)),
{
    let front = bytes.take(offset);
    let rest = bytes.skip(offset);
    assert(front + rest =~= bytes);
    lemma_word_sum_concat(front, rest);
    assert(rest.skip(2) =~= bytes.skip(offset + 2));
}

/// A checksum verifies: once the checksum of a buffer is written into the
/// zeroed field it was computed with, at a word boundary, the words of the
/// buffer fold to all ones.
pub proof fn lemma_checksum_verifies(bytes: Seq<u8>, offset: int)
    requires
        0 <= offset,
        offset % 2 == 0,
        offset + 2 <= bytes.len(),
        bytes[offset] == 0,
        bytes[offset + 1] == 0,
    ensures
        fold_carries(
            word_sum(
                bytes.update(offset, checksum_bytes(bytes)[0]).update(
                    offset + 1,
                    checksum_bytes(bytes)[1],
                ),
            ),
        ) == 0xFFFF,
{
    let sum = word_sum(bytes);
    let stored = checksum_bytes(bytes);
    let filled = bytes.update(offset, stored[0]).update(offset + 1, stored[1]);
    lemma_fold_carries_bound(sum);
    lemma_fold_carries_residue(sum);
    let value = checksum_value(bytes);
    assert(word(stored[0], stored[1]) == value);
    lemma_word_sum_split(bytes, offset);
    lemma_word_sum_split(filled, offset);
    assert(filled.take(offset) =~= bytes.take(offset));
    assert(filled.skip(offset + 2) =~= bytes.skip(offset + 2));
    assert(word_sum(filled) == sum + value);
    lemma_fold_carries_residue(sum + value);
    if sum > 0 {
        let q = (sum - 1) / 0xFFFF;
        assert(sum + value - 1 == 0xFFFF * q + 0xFFFE);
        lemma_mod_multiples_vanish(q, 0xFFFE, 0xFFFF);
    }
}

/// Adds the words of `bytes` to a folded running sum and folds the result.
fn add_words(start: u32, bytes: &[u8]) -> (total: u32)
    requires
        start <= 0xFFFF,
    ensures
        total == fold_carries(start as nat + word_sum(bytes@)),
        total <= 0xFFFF,
{
    let mut acc: u32 = start;
    let mut f: usize = 0;
    proof {
        assert(bytes@.skip(0) =~= bytes@);
    }
    while bytes.len() - f >= 2
        invariant
            f <= bytes@.len(),
            acc <= 0xFFFF,
            fold_carries(acc as nat + word_sum(bytes@.skip(f as int))) == fold_carries(
                start as nat + word_sum(bytes@),
            ),
        decreases bytes@.len() - f,
    {
        let w: u32 = (bytes[f] as u32) * 256 + (bytes[f + 1] as u32);
        let sum: u32 = acc + w;
        proof {
            assert(sum <= 0x1_FFFE ==> (sum & 0xFFFF) == sum % 0x1_0000 && (sum >> 16) == sum
                / 0x1_0000 && (sum & 0xFFFF) + (sum >> 16) <= 0xFFFF) by (bit_vector);
        }
        let folded: u32 = (sum & 0xFFFF) + (sum >> 16);
        proof {
            let rest = bytes@.skip(f as int);
            assert(rest.skip(2) =~= bytes@.skip(f + 2));
            assert(w == word(rest[0], rest[1]));
            reveal_with_fuel(fold_carries, 2);
            assert(folded == fold_carries(sum as nat));
            lemma_fold_carries_absorbs(sum as nat, word_sum(rest.skip(2)));
        }
        acc = folded;
        f += 2;
    }
    proof {
        lemma_fold_carries_bound(start as nat + word_sum(bytes@));
    }
    acc
}

/// Lays out the pseudo-header for a message of `len` octets between the two
/// addresses.
fn pseudo_header_octets(source_addr: &Address, dest_addr: &Address, len: u16) -> (out: [u8; 40])
    ensures
        out@ == pseudo_header(source_addr@, dest_addr@, len as nat),
{
    let mut out: [u8; 40] = [0u8; 40];
    let mut i: usize = 0;
    while i < 16
        invariant
            i <= 16,
            forall|k: int| 0 <= k < i ==> out@[k] == source_addr@[k],
            forall|k: int| 0 <= k < i ==> out@[16 + k] == dest_addr@[k],
            forall|k: int| 32 <= k < 40 ==> out@[k] == 0,
        decreases 16 - i,
    {
        out[i] = source_addr.octets[i];
        out[16 + i] = dest_addr.octets[i];
        i += 1;
    }
    out[34] = (len / 256) as u8;
    out[35] = (len % 256) as u8;
    out[39] = PROTOCOL_NUMBER;
    proof {
        let n = len as nat;
        assert((n / 0x100_0000) % 256 == 0 && (n / 0x1_0000) % 256 == 0);
        assert((n / 0x100) % 256 == n / 256);
    }
    out
}

/// Computes the checksum of an upper-layer message that travels from
/// `source_addr` to `dest_addr`: the Internet checksum of the pseudo-header
/// followed by `data`, as the two octets to place in the message, high octet
/// first. `len` is the upper-layer length announced in the pseudo-header.
/// `data` is summed as it stands, with its checksum field already zeroed by
/// the caller; nothing is padded, so a last octet without a partner does not
/// enter the sum.
pub fn calculate_checksum(data: &[u8], source_addr: Address, dest_addr: Address, len: u16) -> (sum:
    [u8; 2])
    ensures
        sum@ == checksum_bytes(pseudo_header(source_addr@, dest_addr@, len as nat) + data@),
{
    let header = pseudo_header_octets(&source_addr, &dest_addr, len);
    let over_header = add_words(0, header.as_slice());
    let chk = add_words(over_header, data);
    proof {
        let ph = pseudo_header(source_addr@, dest_addr@, len as nat);
        lemma_word_sum_concat(ph, data@);
        lemma_fold_carries_absorbs(word_sum(ph), word_sum(data@));
    }
    let folded: u16 = chk as u16;
    let complement: u16 = !folded;
    proof {
        assert(chk == fold_carries(word_sum(pseudo_header(source_addr@, dest_addr@, len as nat) + data@)));
        assert(!folded == 0xFFFF - folded) by (bit_vector);
        assert((complement >> 8) == complement / 256 && (complement & 0xFF) == complement % 256
            && (complement >> 8) < 256) by (bit_vector);
    }
    let sum = [(complement >> 8) as u8, (complement & 0xFF) as u8];
    proof {
        assert(sum@ =~= checksum_bytes(pseudo_header(source_addr@, dest_addr@, len as nat) + data@));
    }
    sum
}

/// What `pnet::packet::icmpv6::checksum` returns for the octets of an ICMPv6
/// message and the source and destination addresses of the packet that
/// carries it. The value depends on these three alone.
pub uninterp spec fn pnet_icmpv6_checksum(raw: Seq<u8>, source: Seq<u8>, destination: Seq<u8>) -> u16;

/// Calls `pnet::packet::icmpv6::checksum` on `raw` taken as an ICMPv6 message.
/// Trusted: the result is only given its name. A message shorter than the four
/// octets of type, code and checksum cannot be viewed as one, and the outside
/// function adds the words of the message in 32 bits, which a message of up
/// to 65535 octets cannot overflow.
#[verifier::external_body]
fn pnet_checksum(raw: &[u8], source: &Address, destination: &Address) -> (sum: u16)
    requires
        4 <= raw@.len() <= 0xFFFF,
    ensures
        sum == pnet_icmpv6_checksum(raw@, source@, destination@),
{
    let packet = pnet::packet::icmpv6::Icmpv6Packet::new(raw).unwrap();
    pnet::packet::icmpv6::checksum(&packet, &source.octets.into(), &destination.octets.into())
}

/// The two octets of a 16-bit checksum in network byte order.
pub open spec fn checksum_octets(checksum: u16) -> Seq<u8> {
    seq![(checksum / 256) as u8, (checksum % 256) as u8]
}

/// Splits a 16-bit checksum into its two octets, high octet first.
pub fn checksum_to_be_bytes(checksum: u16) -> (out: [u8; 2])
    ensures
        out@ == checksum_octets(checksum),
{
    proof {
        assert((checksum >> 8) == checksum / 256 && (checksum & 0xFF) == checksum % 256 && (
        checksum >> 8) < 256) by (bit_vector);
    }
    let out = [(checksum >> 8) as u8, (checksum & 0xFF) as u8];
    proof {
        assert(out@ =~= checksum_octets(checksum));
    }
    out
}

/// Calculate the checksum for an ICMPv6 packet.
pub fn icmpv6_checksum(raw: &[u8], source: &Address, destination: &Address) -> (sum: [u8; 2])
    requires
        4 <= raw@.len() <= 0xFFFF,
    ensures
        sum@ == checksum_octets(pnet_icmpv6_checksum(raw@, source@, destination@)),
{
    let checksum = pnet_checksum(raw, source, destination);
    checksum_to_be_bytes(checksum)
}

} // verus!
