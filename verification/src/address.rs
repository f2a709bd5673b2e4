//! IPv6 addresses as sixteen octets in network byte order.

use vstd::prelude::*;
use vstd::arithmetic::power2::{pow2, lemma_pow2_adds, lemma2_to64};

verus! {

/// A 128-bit IPv6 address, held as its sixteen octets in network byte order.
#[derive(Clone, Copy, Debug, PartialEq, Eq)]
pub struct Address {
    pub octets: [u8; 16],
}

impl View for Address {
    type V = Seq<u8>;

    open spec fn view(&self) -> Seq<u8> {
        self.octets@
    }
}

/// Build an IPv6 address from the first sixteen octets of a buffer.
pub fn ipv6_from_octets(octets: &[u8]) -> (addr: Address)
    requires
        octets@.len() >= 16,
    ensures
        addr@ == octets@.subrange(0, 16),
{
    let mut out: [u8; 16] = [0u8; 16];
    let mut i: usize = 0;
    while i < 16
        invariant
            i <= 16,
            octets@.len() >= 16,
            forall|k: int| 0 <= k < i ==> out@[k] == octets@[k],
        decreases 16 - i,
    {
        out[i] = octets[i];
        i += 1;
    }
    Address { octets: out }
}

/// The number that a run of octets spells in network byte order, the first
/// octet being the most significant.
pub open spec fn be_value(octets: Seq<u8>) -> nat
    decreases octets.len(),
{
    if octets.len() == 0 {
        0
    } else {
        be_value(octets.drop_last()) * 256 + octets.last() as nat
    }
}

/// The `len` octets that spell the low `8 * len` bits of `value` in network
/// byte order.
pub open spec fn be_octets(value: nat, len: nat) -> Seq<u8>
    decreases len,
{
    if len == 0 {
        Seq::empty()
    } else {
        be_octets(value / 256, (len - 1) as nat).push((value % 256) as u8)
    }
}

/// `be_octets` yields as many octets as it is asked for.
pub proof fn lemma_be_octets_len(value: nat, len: nat)
    ensures
        be_octets(value, len).len() == len,
    decreases len,
{
    if len > 0 {
        lemma_be_octets_len(value / 256, (len - 1) as nat);
    }
}

/// A run of `n` octets spells a number below `2^(8n)`.
pub proof fn lemma_be_value_bound(octets: Seq<u8>)
    ensures
        be_value(octets) < pow2(8 * octets.len()),
    decreases octets.len(),
{
    lemma2_to64();
    if octets.len() > 0 {
        lemma_be_value_bound(octets.drop_last());
        lemma_pow2_adds(8, (8 * (octets.len() - 1)) as nat);
    }
}

/// Spelling a run of octets as a number and writing the number back gives
/// the same octets.
pub proof fn lemma_be_octets_of_value(octets: Seq<u8>)
    ensures
        be_octets(be_value(octets), octets.len()) == octets,
    decreases octets.len(),
{
    if octets.len() > 0 {
        lemma_be_octets_of_value(octets.drop_last());
        assert(octets.drop_last().push(octets.last()) =~= octets);
    } else {
        assert(octets =~= Seq::<u8>::empty());
    }
}

/// Writing a number that fits in `len` octets and reading the octets back
/// gives the same number.
pub proof fn lemma_be_value_of_octets(value: nat, len: nat)
    requires
        value < pow2(8 * len),
    ensures
        be_value(be_octets(value, len)) == value,
    decreases len,
{
    lemma2_to64();
    if len > 0 {
        lemma_pow2_adds(8, (8 * (len - 1)) as nat);
        lemma_be_value_of_octets(value / 256, (len - 1) as nat);
        let shorter = be_octets(value / 256, (len - 1) as nat);
        assert(shorter.push((value % 256) as u8).drop_last() =~= shorter);
    }
}

} // verus!
