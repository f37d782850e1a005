use arp_watch::addr::Ipv4Address;
use arp_watch::addr::MacAddress;
use arp_watch::cache::ArpEntry;
use arp_watch::literal::parse_ipv4;
use arp_watch::literal::parse_mac;

#[test]
fn ipv4_literals_parse_to_their_octets() {
    assert_eq!(parse_ipv4("192.168.1.10"), Some(Ipv4Address::new(192, 168, 1, 10)));
    assert_eq!(parse_ipv4("0.0.0.0"), Some(Ipv4Address::new(0, 0, 0, 0)));
    assert_eq!(parse_ipv4("255.255.255.255"), Some(Ipv4Address::new(255, 255, 255, 255)));
    assert_eq!(parse_ipv4("10.0.0.5"), Some(Ipv4Address::new(10, 0, 0, 5)));
}

#[test]
fn malformed_ipv4_literals_do_not_parse() {
    assert_eq!(parse_ipv4(""), None);
    assert_eq!(parse_ipv4("192.168.1"), None);
    assert_eq!(parse_ipv4("192.168.1.10.3"), None);
    assert_eq!(parse_ipv4("256.0.0.1"), None);
    assert_eq!(parse_ipv4("1000.0.0.1"), None);
    assert_eq!(parse_ipv4("01.2.3.4"), None);
    assert_eq!(parse_ipv4("1.2.3."), None);
    assert_eq!(parse_ipv4(".1.2.3"), None);
    assert_eq!(parse_ipv4("a.b.c.d"), None);
    assert_eq!(parse_ipv4("1.2.3.4 "), None);
    assert_eq!(parse_ipv4("IP"), None);
}

#[test]
fn mac_literals_parse_in_either_case() {
    assert_eq!(
        parse_mac("02:00:00:00:00:01"),
        Some(MacAddress::new(0x02, 0, 0, 0, 0, 0x01))
    );
    assert_eq!(
        parse_mac("aa:bb:cc:dd:ee:ff"),
        Some(MacAddress::new(0xaa, 0xbb, 0xcc, 0xdd, 0xee, 0xff))
    );
    assert_eq!(
        parse_mac("AA:BB:CC:DD:EE:FF"),
        Some(MacAddress::new(0xaa, 0xbb, 0xcc, 0xdd, 0xee, 0xff))
    );
    assert_eq!(
        parse_mac("00:00:00:00:00:00"),
        Some(MacAddress::new(0, 0, 0, 0, 0, 0))
    );
}

#[test]
fn malformed_mac_literals_do_not_parse() {
    assert_eq!(parse_mac(""), None);
    assert_eq!(parse_mac("aa:bb:cc:dd:ee"), None);
    assert_eq!(parse_mac("aa:bb:cc:dd:ee:ff:00"), None);
    assert_eq!(parse_mac("a:bb:cc:dd:ee:ff"), None);
    assert_eq!(parse_mac("aaa:bb:cc:dd:ee:f"), None);
    assert_eq!(parse_mac("gg:bb:cc:dd:ee:ff"), None);
    assert_eq!(parse_mac("aa-bb-cc-dd-ee-ff"), None);
}

#[test]
fn entry_from_literals() {
    let e = ArpEntry::from("192.168.1.10", "02:00:00:00:00:01").unwrap();
    assert_eq!(*e.ip(), Ipv4Address::new(192, 168, 1, 10));
    assert_eq!(*e.mac(), MacAddress::new(0x02, 0, 0, 0, 0, 0x01));

    assert!(ArpEntry::from("192.168.1", "02:00:00:00:00:01").is_none());
    assert!(ArpEntry::from("192.168.1.10", "02:00").is_none());
}
