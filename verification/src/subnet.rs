//! The subnet an interface is bound to, and the enumeration of its addresses
//! for an active scan. The enumeration covers the subnet's whole range —
//! network and broadcast edge addresses included — matching a full-range
//! traversal of the bound network.

use vstd::prelude::*;

use vstd::arithmetic::div_mod::lemma_fundamental_div_mod;
use vstd::arithmetic::div_mod::lemma_mod_bound;
use vstd::arithmetic::div_mod::lemma_mod_multiples_basic;
use vstd::arithmetic::power2::lemma2_to64;
use vstd::arithmetic::power2::lemma_pow2_adds;
use vstd::arithmetic::power2::lemma_pow2_pos;
use vstd::arithmetic::power2::pow2;
use vstd::bits::lemma_u64_shl_is_mul;

use crate::addr::Ipv4Address;
use crate::addr::ipv4_of_int;
use crate::addr::lemma_ipv4_value_of_int;

verus! {

/// An IPv4 subnet: the network (base) address plus the prefix length.
#[derive(Debug, Clone, Copy, PartialEq, Eq, Structural)]
pub struct Subnet {
    pub base: Ipv4Address,
    pub prefix: u8,
}

impl Subnet {
    /// The prefix fits an IPv4 address and the base has its host bits clear.
    pub open spec fn wf(&self) -> bool {
        &&& self.prefix <= 32
        &&& self.base.value() % (pow2((32 - self.prefix) as nat) as int) == 0
    }

    /// How many addresses the subnet holds, its two edge addresses included.
    pub open spec fn spec_size(&self) -> int {
        pow2((32 - self.prefix) as nat) as int
    }

    /// The `i`-th address of the subnet, counted from the base.
    pub open spec fn spec_address_at(&self, i: int) -> Ipv4Address {
        ipv4_of_int(self.base.value() + i)
    }

    /// The subnet of the given prefix length around `addr`: the host bits of
    /// `addr` are cleared. A prefix over 32 names no IPv4 subnet.
    pub fn new(addr: Ipv4Address, prefix: u8) -> (r: Option<Subnet>)
        ensures
            r is Some <==> prefix <= 32,
            r is Some ==> (r->0).wf() && (r->0).prefix == prefix && (r->0).base.value()
                == addr.value() - (addr.value() % (pow2((32 - prefix) as nat) as int)),
    {
        if prefix > 32 {
            return None;
        }
        let size = subnet_size_of_prefix(prefix);
        let v = addr.to_u32() as u64;
        proof {
            let s = pow2((32 - prefix) as nat) as int;
            lemma_pow2_pos((32 - prefix) as nat);
            lemma_fundamental_div_mod(v as int, s);
            lemma_mod_bound(v as int, s);
            lemma_mod_multiples_basic(v as int / s, s);
        }
        let base = (v / size) * size;
        Some(Subnet { base: Ipv4Address::from_u32(base as u32), prefix })
    }

    /// The subnet's size, as a number.
    pub fn size(&self) -> (r: u64)
        requires
            self.prefix <= 32,
        ensures
            r == self.spec_size(),
    {
        subnet_size_of_prefix(self.prefix)
    }

    /// The `i`-th address of the subnet. Stays inside the address space: the
    /// base is aligned to the subnet's size.
    pub fn address_at(&self, i: u64) -> (r: Ipv4Address)
        requires
            self.wf(),
            0 <= i < self.spec_size(),
        ensures
            r == self.spec_address_at(i as int),
    {
        proof {
            lemma_address_in_space(*self, i as int);
            lemma_ipv4_value_of_int(self.base);
        }
        let v = self.base.to_u32();
        Ipv4Address::from_u32(v + (i as u32))
    }
}

/// 2 to the power of the host-bit count, as a machine number.
fn subnet_size_of_prefix(prefix: u8) -> (r: u64)
    requires
        prefix <= 32,
    ensures
        r == pow2((32 - prefix) as nat),
{
    let shift: u64 = (32 - prefix) as u64;
    proof {
        lemma2_to64();
        if shift < 32 {
            vstd::arithmetic::power2::lemma_pow2_strictly_increases(shift as nat, 32);
        }
        lemma_u64_shl_is_mul(1u64, shift);
    }
    1u64 << shift
}

/// Every offset below the subnet's size lands inside the IPv4 address space:
/// an aligned base leaves room for the whole block.
proof fn lemma_address_in_space(net: Subnet, i: int)
    requires
        net.wf(),
        0 <= i < net.spec_size(),
    ensures
        0 <= net.base.value() + i < 0x100000000,
{
    let s = pow2((32 - net.prefix) as nat) as int;
    lemma_pow2_pos((32 - net.prefix) as nat);
    lemma_pow2_adds((32 - net.prefix) as nat, net.prefix as nat);
    lemma2_to64();
    lemma_ipv4_value_of_int(net.base);
    let b = net.base.value();
    lemma_fundamental_div_mod(b, s);
    assert(b + i < 0x100000000) by (nonlinear_arith)
        requires
            0 <= b < 0x100000000,
            b == s * (b / s),
            0 <= i < s,
            s > 0,
            s * (pow2(net.prefix as nat) as int) == 0x100000000,
    ;
}

} // verus!
