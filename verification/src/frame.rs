//! The ARP-over-Ethernet wire format: a 14-byte link-layer header (destination
//! address, source address, protocol type) wrapping a fixed 28-byte ARP body.
//! Field widths and order are mandatory for interoperability and are
//! reproduced bit-exact; decoding an encoded frame recovers every field.

use vstd::prelude::*;

use crate::addr::Ipv4Address;
use crate::addr::MacAddress;

verus! {

/// Length of the link-layer header.
pub const ETHERNET_HEADER_LEN: usize = 14;

/// Length of the ARP body.
pub const ARP_BODY_LEN: usize = 28;

/// Length of a whole frame as built here: header plus body.
pub const FRAME_LEN: usize = 42;

/// Protocol type of ARP in the link-layer header.
pub const ETHERTYPE_ARP: u16 = 0x0806;

/// Protocol type of IPv4, named in the ARP body.
pub const PROTOCOL_TYPE_IPV4: u16 = 0x0800;

/// Hardware type of Ethernet, named in the ARP body.
pub const HARDWARE_TYPE_ETHERNET: u16 = 1;

/// Operation code of a "who-has" request.
pub const OPERATION_REQUEST: u16 = 1;

/// Operation code of a reply.
pub const OPERATION_REPLY: u16 = 2;

/// Hardware address length for Ethernet.
pub const HARDWARE_ADDR_LEN: u8 = 6;

/// Protocol address length for IPv4.
pub const PROTOCOL_ADDR_LEN: u8 = 4;

/// A decoded ARP body, fields in wire order.
#[derive(Debug, Clone, Copy, PartialEq, Eq, Structural)]
pub struct ArpMessage {
    pub hardware_type: u16,
    pub protocol_type: u16,
    pub hardware_len: u8,
    pub protocol_len: u8,
    pub operation: u16,
    pub sender_mac: MacAddress,
    pub sender_ip: Ipv4Address,
    pub target_mac: MacAddress,
    pub target_ip: Ipv4Address,
}

impl ArpMessage {
    /// The body this watcher puts on the wire: Ethernet hardware, IPv4
    /// protocol, the standard address lengths, and the given addresses.
    pub fn new(
        operation: u16,
        sender_mac: MacAddress,
        sender_ip: Ipv4Address,
        target_mac: MacAddress,
        target_ip: Ipv4Address,
    ) -> (r: Self)
        ensures
            r == (ArpMessage {
                hardware_type: HARDWARE_TYPE_ETHERNET,
                protocol_type: PROTOCOL_TYPE_IPV4,
                hardware_len: HARDWARE_ADDR_LEN,
                protocol_len: PROTOCOL_ADDR_LEN,
                operation,
                sender_mac,
                sender_ip,
                target_mac,
                target_ip,
            }),
    {
        ArpMessage {
            hardware_type: HARDWARE_TYPE_ETHERNET,
            protocol_type: PROTOCOL_TYPE_IPV4,
            hardware_len: HARDWARE_ADDR_LEN,
            protocol_len: PROTOCOL_ADDR_LEN,
            operation,
            sender_mac,
            sender_ip,
            target_mac,
            target_ip,
        }
    }
}

/// The two bytes of `v`, most significant first.
pub open spec fn be16_bytes(v: u16) -> Seq<u8> {
    seq![(v / 256) as u8, (v % 256) as u8]
}

/// The number read from two bytes, most significant first.
pub open spec fn be16_value(b0: u8, b1: u8) -> u16 {
    (b0 * 256 + b1) as u16
}

/// The six bytes of a link-layer address, in transmission order.
pub open spec fn mac_bytes(m: MacAddress) -> Seq<u8> {
    seq![m.b0, m.b1, m.b2, m.b3, m.b4, m.b5]
}

/// The four bytes of an IPv4 address, in network order.
pub open spec fn ipv4_bytes(a: Ipv4Address) -> Seq<u8> {
    seq![a.o0, a.o1, a.o2, a.o3]
}

/// The 28 bytes of an ARP body.
pub open spec fn arp_body_bytes(m: ArpMessage) -> Seq<u8> {
    be16_bytes(m.hardware_type) + be16_bytes(m.protocol_type) + seq![m.hardware_len]
        + seq![m.protocol_len] + be16_bytes(m.operation) + mac_bytes(m.sender_mac) + ipv4_bytes(
        m.sender_ip,
    ) + mac_bytes(m.target_mac) + ipv4_bytes(m.target_ip)
}

/// The 42 bytes of a whole frame.
pub open spec fn frame_bytes(dest: MacAddress, src: MacAddress, m: ArpMessage) -> Seq<u8> {
    mac_bytes(dest) + mac_bytes(src) + be16_bytes(ETHERTYPE_ARP) + arp_body_bytes(m)
}

/// The ARP body held in `body`, read from its first 28 bytes.
pub open spec fn spec_parse_body(body: Seq<u8>) -> ArpMessage {
    ArpMessage {
        hardware_type: be16_value(body[0], body[1]),
        protocol_type: be16_value(body[2], body[3]),
        hardware_len: body[4],
        protocol_len: body[5],
        operation: be16_value(body[6], body[7]),
        sender_mac: MacAddress {
            b0: body[8],
            b1: body[9],
            b2: body[10],
            b3: body[11],
            b4: body[12],
            b5: body[13],
        },
        sender_ip: Ipv4Address { o0: body[14], o1: body[15], o2: body[16], o3: body[17] },
        target_mac: MacAddress {
            b0: body[18],
            b1: body[19],
            b2: body[20],
            b3: body[21],
            b4: body[22],
            b5: body[23],
        },
        target_ip: Ipv4Address { o0: body[24], o1: body[25], o2: body[26], o3: body[27] },
    }
}

/// What decoding an inbound frame yields: the link-layer envelope must be
/// long enough and typed ARP, and the body must not be truncated; anything
/// else is not an ARP message.
pub open spec fn spec_parse_frame(bytes: Seq<u8>) -> Option<ArpMessage> {
    if bytes.len() < ETHERNET_HEADER_LEN {
        None
    } else if be16_value(bytes[12], bytes[13]) != ETHERTYPE_ARP {
        None
    } else if bytes.len() < ETHERNET_HEADER_LEN + ARP_BODY_LEN {
        None
    } else {
        Some(spec_parse_body(bytes.skip(ETHERNET_HEADER_LEN as int)))
    }
}

/// Builds the frame for one ARP message: broadcast-or-unicast destination,
/// the given source, protocol type ARP, then the 28-byte body.
pub fn build_frame(dest: MacAddress, src: MacAddress, m: ArpMessage) -> (r: Vec<u8>)
    ensures
        r@ == frame_bytes(dest, src, m),
        r@.len() == FRAME_LEN,
{
    let mut v: Vec<u8> = Vec::new();
    v.push(dest.b0);
    v.push(dest.b1);
    v.push(dest.b2);
    v.push(dest.b3);
    v.push(dest.b4);
    v.push(dest.b5);
    v.push(src.b0);
    v.push(src.b1);
    v.push(src.b2);
    v.push(src.b3);
    v.push(src.b4);
    v.push(src.b5);
    v.push((ETHERTYPE_ARP / 256) as u8);
    v.push((ETHERTYPE_ARP % 256) as u8);
    v.push((m.hardware_type / 256) as u8);
    v.push((m.hardware_type % 256) as u8);
    v.push((m.protocol_type / 256) as u8);
    v.push((m.protocol_type % 256) as u8);
    v.push(m.hardware_len);
    v.push(m.protocol_len);
    v.push((m.operation / 256) as u8);
    v.push((m.operation % 256) as u8);
    v.push(m.sender_mac.b0);
    v.push(m.sender_mac.b1);
    v.push(m.sender_mac.b2);
    v.push(m.sender_mac.b3);
    v.push(m.sender_mac.b4);
    v.push(m.sender_mac.b5);
    v.push(m.sender_ip.o0);
    v.push(m.sender_ip.o1);
    v.push(m.sender_ip.o2);
    v.push(m.sender_ip.o3);
    v.push(m.target_mac.b0);
    v.push(m.target_mac.b1);
    v.push(m.target_mac.b2);
    v.push(m.target_mac.b3);
    v.push(m.target_mac.b4);
    v.push(m.target_mac.b5);
    v.push(m.target_ip.o0);
    v.push(m.target_ip.o1);
    v.push(m.target_ip.o2);
    v.push(m.target_ip.o3);
    proof {
        assert(v@ =~= frame_bytes(dest, src, m));
    }
    v
}

/// Decodes one inbound frame. Exactly the frames that
/// [`spec_parse_frame`] accepts decode; everything else is discarded by the
/// caller.
pub fn parse_frame(bytes: &[u8]) -> (r: Option<ArpMessage>)
    ensures
        r == spec_parse_frame(bytes@),
{
    if bytes.len() < ETHERNET_HEADER_LEN {
        return None;
    }
    let ethertype = (bytes[12] as u16) * 256 + (bytes[13] as u16);
    if ethertype != ETHERTYPE_ARP {
        return None;
    }
    if bytes.len() < FRAME_LEN {
        return None;
    }
    let m = ArpMessage {
        hardware_type: (bytes[14] as u16) * 256 + (bytes[15] as u16),
        protocol_type: (bytes[16] as u16) * 256 + (bytes[17] as u16),
        hardware_len: bytes[18],
        protocol_len: bytes[19],
        operation: (bytes[20] as u16) * 256 + (bytes[21] as u16),
        sender_mac: MacAddress {
            b0: bytes[22],
            b1: bytes[23],
            b2: bytes[24],
            b3: bytes[25],
            b4: bytes[26],
            b5: bytes[27],
        },
        sender_ip: Ipv4Address { o0: bytes[28], o1: bytes[29], o2: bytes[30], o3: bytes[31] },
        target_mac: MacAddress {
            b0: bytes[32],
            b1: bytes[33],
            b2: bytes[34],
            b3: bytes[35],
            b4: bytes[36],
            b5: bytes[37],
        },
        target_ip: Ipv4Address { o0: bytes[38], o1: bytes[39], o2: bytes[40], o3: bytes[41] },
    };
    Some(m)
}

/// Encoding is lossless: decoding a built frame recovers the message, field
/// for field, whatever the addresses and the operation.
pub proof fn lemma_frame_round_trip(dest: MacAddress, src: MacAddress, m: ArpMessage)
    ensures
        spec_parse_frame(frame_bytes(dest, src, m)) == Some(m),
{
    let b = frame_bytes(dest, src, m);
    assert(b.len() == 42);
    assert(be16_value(b[12], b[13]) == ETHERTYPE_ARP);
    let body = b.skip(ETHERNET_HEADER_LEN as int);
    assert(body =~= arp_body_bytes(m));
    lemma_be16_round_trip(m.hardware_type);
    lemma_be16_round_trip(m.protocol_type);
    lemma_be16_round_trip(m.operation);
    assert(spec_parse_body(body) == m);
}

/// Splitting a number into two bytes and reading them back is the identity.
pub proof fn lemma_be16_round_trip(v: u16)
    ensures
        be16_value((v / 256) as u8, (v % 256) as u8) == v,
{
}

} // verus!
