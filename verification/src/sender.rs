//! The transmitter's frame construction: the fixed request layout, the
//! defensive re-announcement, and the full subnet scan. Everything here
//! produces the exact bytes to put on the wire; the raw channel that sends
//! them lives outside this crate.

use vstd::prelude::*;

use crate::addr::Ipv4Address;
use crate::addr::MacAddress;
use crate::cache::ArpEntry;
use crate::frame::ArpMessage;
use crate::frame::OPERATION_REQUEST;
use crate::frame::build_frame;
use crate::frame::frame_bytes;
use crate::subnet::Subnet;

verus! {

/// The transmitter's immutable view of its interface binding: own link
/// address, own IPv4 address, and the bound subnet. Captured once at startup.
#[derive(Debug, Clone, Copy, PartialEq, Eq, Structural)]
pub struct NetArpSender {
    pub source_mac: MacAddress,
    pub source_ip: Ipv4Address,
    pub network: Subnet,
}

/// The message a re-announcement of `entry` carries: the contested entry's
/// addresses in the sender fields, the transmitter's own in the target
/// fields.
pub open spec fn spec_rearp_message(s: NetArpSender, entry: ArpEntry) -> ArpMessage {
    spec_request_message(entry.ip, entry.mac, s.source_ip, s.source_mac)
}

/// The message of one scan probe: a "who-has" for the `i`-th subnet address,
/// the transmitter as sender, the broadcast address as the unresolved target.
pub open spec fn spec_scan_message(s: NetArpSender, i: int) -> ArpMessage {
    spec_request_message(
        s.source_ip,
        s.source_mac,
        s.network.spec_address_at(i),
        MacAddress::spec_broadcast(),
    )
}

/// A request body with the standard Ethernet/IPv4 framing constants.
pub open spec fn spec_request_message(
    ip_source: Ipv4Address,
    hw_source: MacAddress,
    ip_target: Ipv4Address,
    hw_target: MacAddress,
) -> ArpMessage {
    ArpMessage {
        hardware_type: crate::frame::HARDWARE_TYPE_ETHERNET,
        protocol_type: crate::frame::PROTOCOL_TYPE_IPV4,
        hardware_len: crate::frame::HARDWARE_ADDR_LEN,
        protocol_len: crate::frame::PROTOCOL_ADDR_LEN,
        operation: OPERATION_REQUEST,
        sender_mac: hw_source,
        sender_ip: ip_source,
        target_mac: hw_target,
        target_ip: ip_target,
    }
}

impl NetArpSender {
    /// The subnet must be well formed; the scan walks it by offset.
    pub open spec fn wf(&self) -> bool {
        self.network.wf()
    }

    pub fn new(source_mac: MacAddress, source_ip: Ipv4Address, network: Subnet) -> (r: Self)
        ensures
            r == (NetArpSender { source_mac, source_ip, network }),
    {
        NetArpSender { source_mac, source_ip, network }
    }

    /// One frame of the mandated fixed layout: broadcast destination, the
    /// sender's hardware address as link-layer source, and the given ARP
    /// fields. Bit-exact per the wire format of [`crate::frame`].
    pub fn build_packet(
        operation: u16,
        ip_source: Ipv4Address,
        hw_source: MacAddress,
        ip_target: Ipv4Address,
        hw_target: MacAddress,
    ) -> (r: Vec<u8>)
        ensures
            r@ == frame_bytes(
                MacAddress::spec_broadcast(),
                hw_source,
                ArpMessage {
                    operation,
                    ..spec_request_message(ip_source, hw_source, ip_target, hw_target)
                },
            ),
            r@.len() == crate::frame::FRAME_LEN,
    {
        let m = ArpMessage::new(operation, hw_source, ip_source, hw_target, ip_target);
        build_frame(MacAddress::broadcast(), hw_source, m)
    }

    /// The defensive re-announcement for a contested entry: a single request
    /// with the roles inverted — the entry's IP and link address in the
    /// sender fields, the transmitter's own in the target fields — broadcast
    /// to the whole segment.
    pub fn rearp(&self, entry: ArpEntry) -> (r: Vec<u8>)
        ensures
            r@ == frame_bytes(
                MacAddress::spec_broadcast(),
                entry.mac,
                spec_rearp_message(*self, entry),
            ),
    {
        Self::build_packet(
            OPERATION_REQUEST,
            entry.ip,
            entry.mac,
            self.source_ip,
            self.source_mac,
        )
    }

    /// A re-announcement actively asserts the contested binding: decoding
    /// the frame built for `entry` yields a request whose sender fields
    /// carry exactly the entry's addresses.
    pub proof fn lemma_rearp_carries_entry(s: NetArpSender, entry: ArpEntry)
        ensures
            ({
                let decoded = crate::frame::spec_parse_frame(
                    frame_bytes(
                        MacAddress::spec_broadcast(),
                        entry.mac,
                        spec_rearp_message(s, entry),
                    ),
                );
                &&& decoded is Some
                &&& decoded->0.operation == OPERATION_REQUEST
                &&& decoded->0.sender_ip == entry.ip
                &&& decoded->0.sender_mac == entry.mac
                &&& decoded->0.target_ip == s.source_ip
                &&& decoded->0.target_mac == s.source_mac
            }),
    {
        crate::frame::lemma_frame_round_trip(
            MacAddress::spec_broadcast(),
            entry.mac,
            spec_rearp_message(s, entry),
        );
    }

    /// The full scan: one "who-has" request per address of the bound subnet,
    /// edge addresses included, in address order. Sending them — and
    /// stopping early if a send fails — is the raw channel's business.
    pub fn scan_network(&self) -> (r: Vec<Vec<u8>>)
        requires
            self.wf(),
            self.network.spec_size() <= usize::MAX,
        ensures
            r@.len() == self.network.spec_size(),
            forall|i: int|
                0 <= i < r@.len() ==> r@[i]@ == frame_bytes(
                    MacAddress::spec_broadcast(),
                    self.source_mac,
                    spec_scan_message(*self, i),
                ),
    {
        let mut frames: Vec<Vec<u8>> = Vec::new();
        let size = self.network.size();
        let mut i: u64 = 0;
        while i < size
            invariant
                0 <= i <= size,
                size == self.network.spec_size(),
                self.wf(),
                frames@.len() == i,
                forall|j: int|
                    0 <= j < i ==> frames@[j]@ == frame_bytes(
                        MacAddress::spec_broadcast(),
                        self.source_mac,
                        spec_scan_message(*self, j),
                    ),
            decreases size - i,
        {
            let target = self.network.address_at(i);
            let f = Self::build_packet(
                OPERATION_REQUEST,
                self.source_ip,
                self.source_mac,
                target,
                MacAddress::broadcast(),
            );
            frames.push(f);
            i = i + 1;
        }
        frames
    }
}

} // verus!
