use rex::packet::{describe, hex_digit, parse_frame, read_be16, Address, Packet};

fn ethernet(ethertype: u16, payload: &[u8]) -> Vec<u8> {
    let mut frame = vec![0u8; 12];
    frame.extend_from_slice(&ethertype.to_be_bytes());
    frame.extend_from_slice(payload);
    frame
}

fn ipv4(protocol: u8, header_words: u8, rest: &[u8]) -> Vec<u8> {
    let mut packet = vec![0u8; 20];
    packet[0] = 0x40 | header_words;
    packet[9] = protocol;
    packet[12..16].copy_from_slice(&[192, 168, 1, 10]);
    packet[16..20].copy_from_slice(&[10, 0, 0, 254]);
    packet.extend_from_slice(rest);
    packet
}

const SOURCE: Address = Address { a: 192, b: 168, c: 1, d: 10 };
const DESTINATION: Address = Address { a: 10, b: 0, c: 0, d: 254 };

#[test]
fn short_frames_are_not_reported() {
    assert_eq!(parse_frame(&[]), None);
    assert_eq!(parse_frame(&[0u8; 13]), None);
    // An IPv4 frame needs the fixed part of its header.
    assert_eq!(parse_frame(&ethernet(0x0800, &[0u8; 19])), None);
}

#[test]
fn frames_by_ethertype() {
    assert_eq!(parse_frame(&ethernet(0x0806, &[])), Some(Packet::Arp));
    assert_eq!(parse_frame(&ethernet(0x86DD, &[1, 2, 3])), Some(Packet::Ipv6));
    assert_eq!(
        parse_frame(&ethernet(0x1234, &[])),
        Some(Packet::OtherFrame { ethertype: 0x1234 })
    );
}

#[test]
fn ping_is_recognised() {
    let frame = ethernet(0x0800, &ipv4(1, 5, &[]));
    assert_eq!(
        parse_frame(&frame),
        Some(Packet::ControlMessage { source: SOURCE, destination: DESTINATION })
    );
}

#[test]
fn tcp_and_udp_ports_follow_the_header() {
    let ports = [0x01, 0xBB, 0xC0, 0x01];
    let frame = ethernet(0x0800, &ipv4(6, 5, &ports));
    assert_eq!(
        parse_frame(&frame),
        Some(Packet::Tcp {
            source: SOURCE,
            source_port: 443,
            destination: DESTINATION,
            destination_port: 49153,
        })
    );
    let frame = ethernet(0x0800, &ipv4(17, 5, &ports));
    assert_eq!(
        parse_frame(&frame),
        Some(Packet::Udp {
            source: SOURCE,
            source_port: 443,
            destination: DESTINATION,
            destination_port: 49153,
        })
    );
}

#[test]
fn header_length_moves_the_ports() {
    // Six words of header: four bytes of options before the ports.
    let mut rest = vec![9, 9, 9, 9];
    rest.extend_from_slice(&[0, 53, 0, 54]);
    let frame = ethernet(0x0800, &ipv4(17, 6, &rest));
    assert_eq!(
        parse_frame(&frame),
        Some(Packet::Udp {
            source: SOURCE,
            source_port: 53,
            destination: DESTINATION,
            destination_port: 54,
        })
    );
    // A header length of zero words points into the header itself.
    let frame = ethernet(0x0800, &ipv4(6, 0, &[]));
    assert_eq!(
        parse_frame(&frame),
        Some(Packet::Tcp {
            source: SOURCE,
            source_port: 0x4000,
            destination: DESTINATION,
            destination_port: 0,
        })
    );
}

#[test]
fn truncated_ports_are_not_reported() {
    let frame = ethernet(0x0800, &ipv4(6, 5, &[0x01, 0xBB, 0xC0]));
    assert_eq!(parse_frame(&frame), None);
    let frame = ethernet(0x0800, &ipv4(17, 15, &[0u8; 43]));
    assert_eq!(parse_frame(&frame), None);
    let frame = ethernet(0x0800, &ipv4(17, 15, &[0u8; 44]));
    assert!(matches!(parse_frame(&frame), Some(Packet::Udp { .. })));
}

#[test]
fn other_protocols_are_named_by_number() {
    let frame = ethernet(0x0800, &ipv4(47, 5, &[]));
    assert_eq!(parse_frame(&frame), Some(Packet::OtherIpv4 { protocol: 47 }));
}

#[test]
fn lines_that_report_packets() {
    assert_eq!(describe(Packet::Arp), "ARP packet detected");
    assert_eq!(describe(Packet::Ipv6), "IPv6 packet (not parsed in detail)");
    assert_eq!(
        describe(Packet::ControlMessage { source: SOURCE, destination: DESTINATION }),
        "ICMP packet from 192.168.1.10 to 10.0.0.254"
    );
    assert_eq!(
        describe(Packet::Tcp {
            source: SOURCE,
            source_port: 443,
            destination: DESTINATION,
            destination_port: 65535,
        }),
        "TCP packet from 192.168.1.10:443 to 10.0.0.254:65535"
    );
    assert_eq!(
        describe(Packet::Udp {
            source: DESTINATION,
            source_port: 0,
            destination: SOURCE,
            destination_port: 53,
        }),
        "UDP packet from 10.0.0.254:0 to 192.168.1.10:53"
    );
    assert_eq!(
        describe(Packet::OtherIpv4 { protocol: 47 }),
        "IPv4 packet with unknown protocol (47)"
    );
    assert_eq!(describe(Packet::OtherFrame { ethertype: 0x88CC }), "Unknown EtherType: 0x88cc");
    assert_eq!(describe(Packet::OtherFrame { ethertype: 0x000A }), "Unknown EtherType: 0x000a");
    assert_eq!(describe(Packet::OtherFrame { ethertype: 0xFFFF }), "Unknown EtherType: 0xffff");
}

#[test]
fn small_readers() {
    assert_eq!(read_be16(0x12, 0x34), 0x1234);
    assert_eq!(read_be16(0xFF, 0xFF), 0xFFFF);
    assert_eq!(read_be16(0, 0), 0);
    let digits: String = (0..16u8).map(hex_digit).collect();
    assert_eq!(digits, "0123456789abcdef");
}
