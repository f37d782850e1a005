use arp_watch::addr::Ipv4Address;
use arp_watch::addr::MacAddress;
use arp_watch::frame::parse_frame;
use arp_watch::frame::OPERATION_REQUEST;
use arp_watch::sender::NetArpSender;
use arp_watch::subnet::Subnet;

#[test]
fn subnet_clears_host_bits() {
    let net = Subnet::new(Ipv4Address::new(192, 168, 122, 5), 30).unwrap();
    assert_eq!(net.base, Ipv4Address::new(192, 168, 122, 4));
    assert_eq!(net.prefix, 30);
    assert_eq!(net.size(), 4);

    let net = Subnet::new(Ipv4Address::new(10, 1, 2, 3), 24).unwrap();
    assert_eq!(net.base, Ipv4Address::new(10, 1, 2, 0));
    assert_eq!(net.size(), 256);
}

#[test]
fn prefix_over_32_names_no_subnet() {
    assert!(Subnet::new(Ipv4Address::new(10, 0, 0, 1), 33).is_none());
}

#[test]
fn subnet_edge_sizes() {
    // a /32 holds exactly the one address
    let host = Subnet::new(Ipv4Address::new(10, 0, 0, 1), 32).unwrap();
    assert_eq!(host.size(), 1);
    assert_eq!(host.base, Ipv4Address::new(10, 0, 0, 1));
    assert_eq!(host.address_at(0), Ipv4Address::new(10, 0, 0, 1));

    // a /0 holds the whole address space; nothing is materialized for it here
    let all = Subnet::new(Ipv4Address::new(10, 0, 0, 1), 0).unwrap();
    assert_eq!(all.size(), 1u64 << 32);
    assert_eq!(all.base, Ipv4Address::new(0, 0, 0, 0));
    assert_eq!(all.address_at(0xffffffff), Ipv4Address::new(255, 255, 255, 255));
}

#[test]
fn address_at_walks_the_subnet_in_order() {
    let net = Subnet::new(Ipv4Address::new(192, 168, 122, 6), 30).unwrap();
    assert_eq!(net.address_at(0), Ipv4Address::new(192, 168, 122, 4));
    assert_eq!(net.address_at(1), Ipv4Address::new(192, 168, 122, 5));
    assert_eq!(net.address_at(2), Ipv4Address::new(192, 168, 122, 6));
    assert_eq!(net.address_at(3), Ipv4Address::new(192, 168, 122, 7));
}

#[test]
fn scanning_a_slash_30_emits_exactly_four_requests() {
    // the scan covers the subnet's whole range, network and broadcast
    // addresses included: four requests for a /30
    let own_mac = MacAddress::new(0x02, 0, 0, 0, 0, 0x07);
    let own_ip = Ipv4Address::new(192, 168, 122, 6);
    let net = Subnet::new(own_ip, 30).unwrap();
    let sender = NetArpSender::new(own_mac, own_ip, net);

    let frames = sender.scan_network();
    assert_eq!(frames.len(), 4);

    for (i, f) in frames.iter().enumerate() {
        let m = parse_frame(f).expect("a scan frame must decode");
        assert_eq!(m.operation, OPERATION_REQUEST);
        assert_eq!(m.sender_mac, own_mac);
        assert_eq!(m.sender_ip, own_ip);
        assert_eq!(m.target_mac, MacAddress::broadcast());
        assert_eq!(m.target_ip, Ipv4Address::new(192, 168, 122, 4 + i as u8));
        // broadcast destination on the wire
        assert_eq!(&f[..6], &[0xff, 0xff, 0xff, 0xff, 0xff, 0xff]);
    }
}

#[test]
fn rearp_frame_carries_the_old_binding_as_sender() {
    let own_mac = MacAddress::new(0x02, 0, 0, 0, 0, 0x07);
    let own_ip = Ipv4Address::new(192, 168, 122, 6);
    let net = Subnet::new(own_ip, 24).unwrap();
    let sender = NetArpSender::new(own_mac, own_ip, net);

    let old_ip = Ipv4Address::new(192, 168, 122, 50);
    let old_mac = MacAddress::new(0xaa, 0xaa, 0xaa, 0xaa, 0xaa, 0xaa);
    let entry = arp_watch::cache::ArpEntry::new(old_ip, old_mac);

    let frame = sender.rearp(entry);
    let m = parse_frame(&frame).expect("a re-announcement must decode");
    assert_eq!(m.operation, OPERATION_REQUEST);
    // the contested binding stands in the sender fields
    assert_eq!(m.sender_ip, old_ip);
    assert_eq!(m.sender_mac, old_mac);
    // the transmitter's own binding stands in the target fields
    assert_eq!(m.target_ip, own_ip);
    assert_eq!(m.target_mac, own_mac);
}

#[test]
fn address_round_trips_through_its_numeric_value() {
    let a = Ipv4Address::new(203, 0, 113, 77);
    assert_eq!(a.to_u32(), 0xcb00714d);
    assert_eq!(Ipv4Address::from_u32(0xcb00714d), a);
}
