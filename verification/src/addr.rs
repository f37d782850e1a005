//! Plain-value address types: IPv4 addresses and 48-bit link-layer (MAC)
//! addresses, with their numeric views.

use vstd::prelude::*;

verus! {

/// An IPv4 address, held as four octets in network order (`o0` is the most
/// significant).
#[derive(Debug, Clone, Copy, PartialEq, Eq, Structural)]
pub struct Ipv4Address {
    pub o0: u8,
    pub o1: u8,
    pub o2: u8,
    pub o3: u8,
}

/// A 48-bit link-layer address, held as six octets in transmission order.
#[derive(Debug, Clone, Copy, PartialEq, Eq, Structural)]
pub struct MacAddress {
    pub b0: u8,
    pub b1: u8,
    pub b2: u8,
    pub b3: u8,
    pub b4: u8,
    pub b5: u8,
}

impl Ipv4Address {
    /// The address as one number: base-256 value of the four octets.
    pub open spec fn value(self) -> int {
        self.o0 * 0x1000000 + self.o1 * 0x10000 + self.o2 * 0x100 + self.o3
    }

    pub fn new(o0: u8, o1: u8, o2: u8, o3: u8) -> (r: Self)
        ensures
            r == (Ipv4Address { o0, o1, o2, o3 }),
    {
        Ipv4Address { o0, o1, o2, o3 }
    }

    pub fn to_u32(&self) -> (r: u32)
        ensures
            r == self.value(),
    {
        (self.o0 as u32) * 0x1000000 + (self.o1 as u32) * 0x10000 + (self.o2 as u32) * 0x100
            + (self.o3 as u32)
    }

    pub fn from_u32(v: u32) -> (r: Self)
        ensures
            r == ipv4_of_int(v as int),
            r.value() == v,
    {
        proof {
            lemma_ipv4_of_int_value(v as int);
        }
        Ipv4Address {
            o0: (v / 0x1000000) as u8,
            o1: ((v / 0x10000) % 0x100) as u8,
            o2: ((v / 0x100) % 0x100) as u8,
            o3: (v % 0x100) as u8,
        }
    }
}

/// The IPv4 address whose numeric value is `v`, for `v` in range.
pub open spec fn ipv4_of_int(v: int) -> Ipv4Address {
    Ipv4Address {
        o0: ((v / 0x1000000) % 0x100) as u8,
        o1: ((v / 0x10000) % 0x100) as u8,
        o2: ((v / 0x100) % 0x100) as u8,
        o3: (v % 0x100) as u8,
    }
}

/// Decomposing a number in range into octets and reassembling it is the
/// identity.
pub proof fn lemma_ipv4_of_int_value(v: int)
    requires
        0 <= v < 0x100000000,
    ensures
        ipv4_of_int(v).value() == v,
{
    assert(((v / 0x1000000) % 0x100) * 0x1000000 + ((v / 0x10000) % 0x100) * 0x10000 + ((v
        / 0x100) % 0x100) * 0x100 + (v % 0x100) == v) by (nonlinear_arith)
        requires
            0 <= v < 0x100000000,
    ;
}

/// Octet decomposition inverts the numeric value: distinct addresses have
/// distinct values.
pub proof fn lemma_ipv4_value_of_int(a: Ipv4Address)
    ensures
        ipv4_of_int(a.value()) == a,
        0 <= a.value() < 0x100000000,
{
    let v = a.value();
    assert(v / 0x1000000 == a.o0 && (v / 0x10000) % 0x100 == a.o1 && (v / 0x100) % 0x100 == a.o2
        && v % 0x100 == a.o3) by (nonlinear_arith)
        requires
            v == a.o0 * 0x1000000 + a.o1 * 0x10000 + a.o2 * 0x100 + a.o3,
            a.o0 < 0x100,
            a.o1 < 0x100,
            a.o2 < 0x100,
            a.o3 < 0x100,
    ;
}

impl MacAddress {
    pub fn new(b0: u8, b1: u8, b2: u8, b3: u8, b4: u8, b5: u8) -> (r: Self)
        ensures
            r == (MacAddress { b0, b1, b2, b3, b4, b5 }),
    {
        MacAddress { b0, b1, b2, b3, b4, b5 }
    }

    /// The all-ones broadcast address.
    pub open spec fn spec_broadcast() -> MacAddress {
        MacAddress { b0: 0xff, b1: 0xff, b2: 0xff, b3: 0xff, b4: 0xff, b5: 0xff }
    }

    #[verifier::when_used_as_spec(spec_broadcast)]
    pub fn broadcast() -> (r: Self)
        ensures
            r == MacAddress::spec_broadcast(),
    {
        MacAddress { b0: 0xff, b1: 0xff, b2: 0xff, b3: 0xff, b4: 0xff, b5: 0xff }
    }
}

} // verus!
