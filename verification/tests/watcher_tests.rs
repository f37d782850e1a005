use arp_watch::addr::Ipv4Address;
use arp_watch::addr::MacAddress;
use arp_watch::watcher::select_interface;
use arp_watch::watcher::sender_for_interface;
use arp_watch::watcher::InterfaceAddr;
use arp_watch::watcher::InterfaceInfo;
use arp_watch::watcher::WatchError;

fn iface(name: &str, is_loopback: bool) -> InterfaceInfo {
    InterfaceInfo {
        name: name.to_string(),
        is_loopback,
        mac: Some(MacAddress::new(2, 0, 0, 0, 0, 1)),
        addr: Some(InterfaceAddr { ip: Ipv4Address::new(10, 0, 0, 1), prefix: 24 }),
    }
}

#[test]
fn a_given_name_must_match_exactly() {
    let ifaces = vec![iface("lo", true), iface("eth0", false), iface("eth1", false)];
    assert_eq!(select_interface(Some("eth1".to_string()), &ifaces), Ok(2));
    assert_eq!(select_interface(Some("lo".to_string()), &ifaces), Ok(0));
    assert_eq!(
        select_interface(Some("eth2".to_string()), &ifaces),
        Err(WatchError::NoSuchInterface)
    );
}

#[test]
fn without_a_name_the_first_non_loopback_wins() {
    let ifaces = vec![iface("lo", true), iface("eth0", false), iface("eth1", false)];
    assert_eq!(select_interface(None, &ifaces), Ok(1));
}

#[test]
fn only_loopbacks_is_a_fatal_startup_error() {
    let ifaces = vec![iface("lo", true)];
    assert_eq!(select_interface(None, &ifaces), Err(WatchError::NoUsableInterface));
    let none: Vec<InterfaceInfo> = vec![];
    assert_eq!(select_interface(None, &none), Err(WatchError::NoUsableInterface));
}

#[test]
fn the_binding_names_each_missing_resource() {
    let mut no_addr = iface("eth0", false);
    no_addr.addr = None;
    assert_eq!(
        sender_for_interface(&no_addr).unwrap_err(),
        WatchError::MissingIpv4Network
    );

    let mut no_mac = iface("eth0", false);
    no_mac.mac = None;
    assert_eq!(
        sender_for_interface(&no_mac).unwrap_err(),
        WatchError::MissingLinkAddress
    );

    let mut bad_prefix = iface("eth0", false);
    bad_prefix.addr = Some(InterfaceAddr { ip: Ipv4Address::new(10, 0, 0, 1), prefix: 40 });
    assert_eq!(
        sender_for_interface(&bad_prefix).unwrap_err(),
        WatchError::InvalidPrefix
    );
}

#[test]
fn a_complete_interface_yields_the_transmitter_binding() {
    let sender = sender_for_interface(&iface("eth0", false)).unwrap();
    assert_eq!(sender.source_mac, MacAddress::new(2, 0, 0, 0, 0, 1));
    assert_eq!(sender.source_ip, Ipv4Address::new(10, 0, 0, 1));
    assert_eq!(sender.network.base, Ipv4Address::new(10, 0, 0, 0));
    assert_eq!(sender.network.prefix, 24);
}
