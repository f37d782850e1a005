use arp_watch::addr::Ipv4Address;
use arp_watch::addr::MacAddress;
use arp_watch::frame::build_frame;
use arp_watch::frame::parse_frame;
use arp_watch::frame::ArpMessage;
use arp_watch::frame::FRAME_LEN;
use arp_watch::frame::OPERATION_REPLY;
use arp_watch::frame::OPERATION_REQUEST;
use arp_watch::sender::NetArpSender;

#[test]
fn built_request_has_the_mandated_layout() {
    let frame = NetArpSender::build_packet(
        OPERATION_REQUEST,
        Ipv4Address::new(10, 0, 0, 1),
        MacAddress::new(0x02, 0x00, 0x00, 0x00, 0x00, 0x01),
        Ipv4Address::new(10, 0, 0, 2),
        MacAddress::broadcast(),
    );
    let expected: Vec<u8> = vec![
        // link-layer header: broadcast destination, source, protocol type ARP
        0xff, 0xff, 0xff, 0xff, 0xff, 0xff, 0x02, 0x00, 0x00, 0x00, 0x00, 0x01, 0x08, 0x06,
        // body: Ethernet, IPv4, lengths 6 and 4, operation 1
        0x00, 0x01, 0x08, 0x00, 0x06, 0x04, 0x00, 0x01,
        // sender hardware and protocol addresses
        0x02, 0x00, 0x00, 0x00, 0x00, 0x01, 0x0a, 0x00, 0x00, 0x01,
        // target hardware and protocol addresses
        0xff, 0xff, 0xff, 0xff, 0xff, 0xff, 0x0a, 0x00, 0x00, 0x02,
    ];
    assert_eq!(frame, expected);
    assert_eq!(frame.len(), FRAME_LEN);
}

#[test]
fn decoding_an_encoded_request_recovers_every_field() {
    let sender_mac = MacAddress::new(0x02, 0xaa, 0xbb, 0xcc, 0xdd, 0x01);
    let sender_ip = Ipv4Address::new(192, 168, 1, 7);
    let target_mac = MacAddress::new(0x02, 0x11, 0x22, 0x33, 0x44, 0x02);
    let target_ip = Ipv4Address::new(192, 168, 1, 9);
    let m = ArpMessage::new(OPERATION_REQUEST, sender_mac, sender_ip, target_mac, target_ip);
    let frame = build_frame(MacAddress::broadcast(), sender_mac, m);

    let decoded = parse_frame(&frame).expect("a built frame must decode");
    assert_eq!(decoded.operation, OPERATION_REQUEST);
    assert_eq!(decoded.sender_mac, sender_mac);
    assert_eq!(decoded.sender_ip, sender_ip);
    assert_eq!(decoded.target_mac, target_mac);
    assert_eq!(decoded.target_ip, target_ip);
    assert_eq!(decoded, m);
}

#[test]
fn decoding_an_encoded_reply_recovers_every_field() {
    let m = ArpMessage::new(
        OPERATION_REPLY,
        MacAddress::new(2, 0, 0, 0, 0, 1),
        Ipv4Address::new(10, 1, 2, 3),
        MacAddress::new(2, 0, 0, 0, 0, 2),
        Ipv4Address::new(10, 1, 2, 4),
    );
    let frame = build_frame(MacAddress::new(2, 0, 0, 0, 0, 2), MacAddress::new(2, 0, 0, 0, 0, 1), m);
    assert_eq!(parse_frame(&frame), Some(m));
}

#[test]
fn non_arp_protocol_type_does_not_decode() {
    let m = ArpMessage::new(
        OPERATION_REPLY,
        MacAddress::new(2, 0, 0, 0, 0, 1),
        Ipv4Address::new(10, 1, 2, 3),
        MacAddress::broadcast(),
        Ipv4Address::new(10, 1, 2, 4),
    );
    let mut frame = build_frame(MacAddress::broadcast(), MacAddress::new(2, 0, 0, 0, 0, 1), m);
    // protocol type 0x0800: IPv4, not ARP
    frame[12] = 0x08;
    frame[13] = 0x00;
    assert_eq!(parse_frame(&frame), None);
}

#[test]
fn truncated_frames_do_not_decode() {
    let m = ArpMessage::new(
        OPERATION_REPLY,
        MacAddress::new(2, 0, 0, 0, 0, 1),
        Ipv4Address::new(10, 1, 2, 3),
        MacAddress::broadcast(),
        Ipv4Address::new(10, 1, 2, 4),
    );
    let frame = build_frame(MacAddress::broadcast(), MacAddress::new(2, 0, 0, 0, 0, 1), m);

    // too short for the link-layer header
    assert_eq!(parse_frame(&frame[..13]), None);
    // typed ARP but the body is truncated
    assert_eq!(parse_frame(&frame[..41]), None);
    assert_eq!(parse_frame(&frame[..14]), None);
    // empty
    assert_eq!(parse_frame(&[]), None);
}

#[test]
fn trailing_padding_is_ignored() {
    let m = ArpMessage::new(
        OPERATION_REPLY,
        MacAddress::new(2, 0, 0, 0, 0, 1),
        Ipv4Address::new(10, 1, 2, 3),
        MacAddress::broadcast(),
        Ipv4Address::new(10, 1, 2, 4),
    );
    let mut frame = build_frame(MacAddress::broadcast(), MacAddress::new(2, 0, 0, 0, 0, 1), m);
    // frames on the wire are often padded to the minimum length
    while frame.len() < 60 {
        frame.push(0);
    }
    assert_eq!(parse_frame(&frame), Some(m));
}
