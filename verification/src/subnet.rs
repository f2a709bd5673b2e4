//! A subnet and the ordinal enumeration of the addresses in it.

use vstd::prelude::*;
use vstd::arithmetic::power2::{pow2, lemma_pow2_pos, lemma_pow2_adds};
use vstd::arithmetic::div_mod::{lemma_fundamental_div_mod, lemma_fundamental_div_mod_converse};
use crate::address::{
    Address, be_octets, be_value, lemma_be_octets_len, lemma_be_value_bound,
    lemma_be_value_of_octets,
};

verus! {

/// Number of bits in an IPv6 address, and the longest prefix a subnet can have.
pub const ADDRESS_BITS: u8 = 128;

/// Number of addresses in a subnet whose prefix is `prefix_len` bits long.
pub open spec fn host_capacity(prefix_len: nat) -> nat {
    pow2((128 - prefix_len) as nat)
}

/// The lowest address of the subnet that holds `addr`, as a number: the
/// address with its host bits cleared.
pub open spec fn network_value(addr: Seq<u8>, prefix_len: nat) -> nat {
    (be_value(addr) / host_capacity(prefix_len)) * host_capacity(prefix_len)
}

/// The host with ordinal `index` in the subnet of `addr`: the network
/// address plus the index, or nothing when the subnet holds no such host.
pub open spec fn nth_host(addr: Seq<u8>, prefix_len: nat, index: nat) -> Option<Seq<u8>> {
    if index < host_capacity(prefix_len) {
        Some(be_octets(network_value(addr, prefix_len) + index, 16))
    } else {
        None
    }
}

/// What a subnet is to the contracts: an address and the length of the prefix
/// that all its hosts share with that address.
pub struct SubnetView {
    pub addr: Seq<u8>,
    pub prefix_len: nat,
}

impl SubnetView {
    /// The address has sixteen octets and the prefix is no longer than it.
    pub open spec fn wf(self) -> bool {
        self.addr.len() == 16 && self.prefix_len <= 128
    }

    /// Number of hosts in the subnet.
    pub open spec fn capacity(self) -> nat {
        host_capacity(self.prefix_len)
    }

    /// The host with ordinal `index`, if the subnet has that many.
    pub open spec fn host(self, index: nat) -> Option<Seq<u8>> {
        nth_host(self.addr, self.prefix_len, index)
    }
}

/// An IPv6 prefix: the pool of addresses that the responder answers for.
#[derive(Clone, Copy, Debug)]
pub struct Subnet {
    addr: Address,
    prefix_len: u8,
}

/// Asks `ipnet` for the host with ordinal `index`: builds an `Ipv6Net` from
/// the address and prefix length and takes `hosts().nth(index)`. Trusted:
/// `hosts()` runs from the network address (the address with the host bits
/// masked off) to the last address of the prefix, and `nth` adds the index to
/// the start, yielding nothing once the index reaches the number of addresses
/// in that range. `Ipv6Net::new` accepts every prefix length up to 128.
#[verifier::external_body]
fn ipnet_nth_host(addr: &Address, prefix_len: u8, index: usize) -> (host: Option<Address>)
    requires
        prefix_len <= 128,
    ensures
        match host {
            Some(a) => nth_host(addr@, prefix_len as nat, index as nat) == Some(a@),
            None => nth_host(addr@, prefix_len as nat, index as nat) is None,
        },
{
    let net = ipnet::Ipv6Net::new(addr.octets.into(), prefix_len).unwrap();
    net.hosts().nth(index).map(|a| Address { octets: a.octets() })
}

impl View for Subnet {
    type V = SubnetView;

    closed spec fn view(&self) -> SubnetView {
        SubnetView { addr: self.addr@, prefix_len: self.prefix_len as nat }
    }
}

impl Subnet {
    #[verifier::type_invariant]
    spec fn prefix_fits(self) -> bool {
        self.prefix_len <= 128
    }

    /// Makes a subnet from an address and a prefix length. A prefix longer
    /// than the address is refused.
    pub fn new(addr: Address, prefix_len: u8) -> (subnet: Option<Subnet>)
        ensures
            subnet is Some <==> prefix_len <= 128,
            subnet is Some ==> subnet.unwrap()@ == (SubnetView {
                addr: addr@,
                prefix_len: prefix_len as nat,
            }),
    {
        if prefix_len <= ADDRESS_BITS {
            Some(Subnet { addr, prefix_len })
        } else {
            None
        }
    }

    /// The address the subnet was made from, host bits included.
    pub fn addr(&self) -> (addr: Address)
        ensures
            addr@ == self@.addr,
            self@.wf(),
    {
        proof {
            use_type_invariant(self);
        }
        self.addr
    }

    /// The length of the prefix in bits.
    pub fn prefix_len(&self) -> (prefix_len: u8)
        ensures
            prefix_len == self@.prefix_len,
            self@.wf(),
    {
        proof {
            use_type_invariant(self);
        }
        self.prefix_len
    }

    /// The host with ordinal `index` in the subnet, counted from the network
    /// address, which is host zero. Nothing is returned when the index is not
    /// below the number of hosts in the subnet.
    pub fn host(&self, index: usize) -> (host: Option<Address>)
        ensures
            self@.wf(),
            host_outcome(self@, index as nat, host),
    {
        proof {
            use_type_invariant(self);
        }
        ipnet_nth_host(&self.addr, self.prefix_len, index)
    }
}

/// What [`Subnet::host`] may return for a subnet and an index: the address
/// that the enumeration gives, or nothing where it gives none.
pub open spec fn host_outcome(subnet: SubnetView, index: nat, outcome: Option<Address>) -> bool {
    match outcome {
        Some(a) => subnet.host(index) == Some(a@),
        None => subnet.host(index) is None,
    }
}

/// Enumeration is a function of the subnet and the index: two outcomes for
/// the same subnet and index are the same address, or both nothing.
pub proof fn lemma_host_determined(
    subnet: SubnetView,
    index: nat,
    first: Option<Address>,
    second: Option<Address>,
)
    requires
        host_outcome(subnet, index, first),
        host_outcome(subnet, index, second),
    ensures
        first == second,
{
    if first is Some {
        let a = first.unwrap();
        let b = second.unwrap();
        assert(a.octets@ == b.octets@);
        assert(a.octets =~= b.octets);
    }
}

/// The network address and every host above it, up to the capacity of the
/// subnet, fit in 128 bits; the network address has all host bits clear and
/// is the greatest such number that is not above the address of the subnet.
pub proof fn lemma_network_value(subnet: SubnetView)
    requires
        subnet.wf(),
    ensures
        subnet.capacity() >= 1,
        network_value(subnet.addr, subnet.prefix_len) % subnet.capacity() == 0,
        network_value(subnet.addr, subnet.prefix_len) <= be_value(subnet.addr),
        be_value(subnet.addr) < network_value(subnet.addr, subnet.prefix_len) + subnet.capacity(),
        network_value(subnet.addr, subnet.prefix_len) + subnet.capacity() <= pow2(128),
{
    let v = be_value(subnet.addr) as int;
    let cap = subnet.capacity() as int;
    let p = subnet.prefix_len;
    let q = v / cap;
    lemma_pow2_pos((128 - p) as nat);
    lemma_pow2_pos(p);
    lemma_be_value_bound(subnet.addr);
    lemma_pow2_adds(p, (128 - p) as nat);
    lemma_fundamental_div_mod(v, cap);
    let top = pow2(p) as int;
    assert(q * cap == cap * q) by (nonlinear_arith);
    assert(q < top) by (nonlinear_arith)
        requires
            cap * q <= v,
            v < top * cap,
            cap > 0,
    ;
    assert((q + 1) * cap <= top * cap) by (nonlinear_arith)
        requires
            q + 1 <= top,
            cap > 0,
    ;
    assert((q + 1) * cap == q * cap + cap) by (nonlinear_arith);
    lemma_fundamental_div_mod_converse(q * cap, cap, q, 0);
}

/// Host zero always exists and is the network address: the address of the
/// subnet with every bit behind the prefix cleared.
pub proof fn lemma_first_host_is_network(subnet: SubnetView)
    requires
        subnet.wf(),
    ensures
        subnet.host(0) == Some(be_octets(network_value(subnet.addr, subnet.prefix_len), 16)),
        be_value(subnet.host(0).unwrap()) == network_value(subnet.addr, subnet.prefix_len),
        be_value(subnet.host(0).unwrap()) % subnet.capacity() == 0,
        be_value(subnet.host(0).unwrap()) / subnet.capacity() == be_value(subnet.addr)
            / subnet.capacity(),
{
    lemma_network_value(subnet);
    lemma_host_offset(subnet, 0);
}

/// Each host below the capacity of the subnet exists, has sixteen octets and
/// lies `index` above the network address: its bits in front of the prefix
/// boundary are those of the subnet, and its host bits spell the index.
pub proof fn lemma_host_offset(subnet: SubnetView, index: nat)
    requires
        subnet.wf(),
        index < subnet.capacity(),
    ensures
        subnet.host(index) is Some,
        subnet.host(index).unwrap().len() == 16,
        be_value(subnet.host(index).unwrap()) == network_value(subnet.addr, subnet.prefix_len)
            + index,
        be_value(subnet.host(index).unwrap()) / subnet.capacity() == be_value(subnet.addr)
            / subnet.capacity(),
        be_value(subnet.host(index).unwrap()) % subnet.capacity() == index,
{
    lemma_network_value(subnet);
    let cap = subnet.capacity() as int;
    let q = be_value(subnet.addr) as int / cap;
    let value = network_value(subnet.addr, subnet.prefix_len) + index;
    lemma_be_octets_len(value, 16);
    lemma_be_value_of_octets(value, 16);
    lemma_fundamental_div_mod_converse(value as int, cap, q, index as int);
}

/// Hosts with different ordinals have different addresses.
pub proof fn lemma_hosts_distinct(subnet: SubnetView, first: nat, second: nat)
    requires
        subnet.wf(),
        first < subnet.capacity(),
        second < subnet.capacity(),
        first != second,
    ensures
        subnet.host(first) != subnet.host(second),
{
    lemma_host_offset(subnet, first);
    lemma_host_offset(subnet, second);
}

} // verus!
