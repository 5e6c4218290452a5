//! Captured network frames: what an Ethernet frame carries, and the line
//! that reports it.

use crate::text::{decimal, digit_char, push_decimal};
use vstd::prelude::*;

verus! {

/// Length of an Ethernet header.
pub const ETHERNET_HEADER: usize = 14;

/// Length of an IPv4 header without options.
pub const IPV4_MIN_HEADER: usize = 20;

/// An IPv4 address.
#[derive(Clone, Copy, Debug, PartialEq, Eq, Structural)]
pub struct Address {
    pub a: u8,
    pub b: u8,
    pub c: u8,
    pub d: u8,
}

/// What a frame carries, as far as it is looked into.
#[derive(Clone, Copy, Debug, PartialEq, Eq, Structural)]
pub enum Packet {
    Arp,
    /// An ICMP packet.
    ControlMessage { source: Address, destination: Address },
    Tcp { source: Address, source_port: u16, destination: Address, destination_port: u16 },
    Udp { source: Address, source_port: u16, destination: Address, destination_port: u16 },
    /// An IPv4 packet of a protocol that is not looked into.
    OtherIpv4 { protocol: u8 },
    Ipv6,
    /// A frame of an EtherType that is not looked into.
    OtherFrame { ethertype: u16 },
}

/// The number that two bytes spell, the high byte first.
pub open spec fn be16(high: u8, low: u8) -> u16 {
    (high * 256 + low) as u16
}

/// The address spelled by the four bytes of `data` from `at` on.
pub open spec fn address_at(data: Seq<u8>, at: int) -> Address {
    Address { a: data[at], b: data[at + 1], c: data[at + 2], d: data[at + 3] }
}

/// The length of the IPv4 header of a frame, as its first byte gives it: the
/// low four bits count words of four bytes.
pub open spec fn ipv4_header_len(data: Seq<u8>) -> int {
    (data[ETHERNET_HEADER as int] & 0x0F) * 4
}

/// What the IPv4 packet of a frame carries. The frame is at least as long as
/// an Ethernet header and an IPv4 header without options. `None` stands for
/// a TCP or UDP packet that is cut off before the end of its two ports.
pub open spec fn ipv4_packet(data: Seq<u8>) -> Option<Packet> {
    let protocol = data[ETHERNET_HEADER + 9];
    let source = address_at(data, ETHERNET_HEADER + 12);
    let destination = address_at(data, ETHERNET_HEADER + 16);
    let transport = ETHERNET_HEADER + ipv4_header_len(data);
    if protocol == 1 {
        Some(Packet::ControlMessage { source, destination })
    } else if protocol == 6 || protocol == 17 {
        if data.len() >= transport + 4 {
            let source_port = be16(data[transport], data[transport + 1]);
            let destination_port = be16(data[transport + 2], data[transport + 3]);
            if protocol == 6 {
                Some(Packet::Tcp { source, source_port, destination, destination_port })
            } else {
                Some(Packet::Udp { source, source_port, destination, destination_port })
            }
        } else {
            None
        }
    } else {
        Some(Packet::OtherIpv4 { protocol })
    }
}

/// What the frame `data` carries. `None` stands for a frame that is cut off:
/// before the end of its Ethernet header, before the end of the fixed part
/// of its IPv4 header, or before the end of its ports.
pub open spec fn frame_packet(data: Seq<u8>) -> Option<Packet> {
    if data.len() < ETHERNET_HEADER {
        None
    } else {
        let ethertype = be16(data[12], data[13]);
        if ethertype == 0x0806 {
            Some(Packet::Arp)
        } else if ethertype == 0x0800 {
            if data.len() < ETHERNET_HEADER + IPV4_MIN_HEADER {
                None
            } else {
                ipv4_packet(data)
            }
        } else if ethertype == 0x86DD {
            Some(Packet::Ipv6)
        } else {
            Some(Packet::OtherFrame { ethertype })
        }
    }
}

/// Executable form of [`be16`].
pub fn read_be16(high: u8, low: u8) -> (n: u16)
    ensures
        n == be16(high, low),
{
    (high as u16) * 256 + (low as u16)
}

/// Reads the address at `at`.
fn read_address(data: &[u8], at: usize) -> (address: Address)
    requires
        at + 4 <= data@.len(),
    ensures
        address == address_at(data@, at as int),
{
    Address { a: data[at], b: data[at + 1], c: data[at + 2], d: data[at + 3] }
}

/// Looks into a captured frame.
pub fn parse_frame(data: &[u8]) -> (packet: Option<Packet>)
    ensures
        packet == frame_packet(data@),
{
    if data.len() < ETHERNET_HEADER {
        return None;
    }
    let ethertype = read_be16(data[12], data[13]);
    if ethertype == 0x0806 {
        Some(Packet::Arp)
    } else if ethertype == 0x0800 {
        if data.len() < ETHERNET_HEADER + IPV4_MIN_HEADER {
            return None;
        }
        let protocol = data[ETHERNET_HEADER + 9];
        let source = read_address(data, ETHERNET_HEADER + 12);
        let destination = read_address(data, ETHERNET_HEADER + 16);
        let first = data[ETHERNET_HEADER];
        let words: u8 = first & 0x0F;
        assert(words <= 15) by (bit_vector)
            requires
                words == first & 0x0F,
        ;
        let transport: usize = ETHERNET_HEADER + (words as usize) * 4;
        if protocol == 1 {
            Some(Packet::ControlMessage { source, destination })
        } else if protocol == 6 || protocol == 17 {
            if data.len() >= transport + 4 {
                let source_port = read_be16(data[transport], data[transport + 1]);
                let destination_port = read_be16(data[transport + 2], data[transport + 3]);
                if protocol == 6 {
                    Some(Packet::Tcp { source, source_port, destination, destination_port })
                } else {
                    Some(Packet::Udp { source, source_port, destination, destination_port })
                }
            } else {
                None
            }
        } else {
            Some(Packet::OtherIpv4 { protocol })
        }
    } else if ethertype == 0x86DD {
        Some(Packet::Ipv6)
    } else {
        Some(Packet::OtherFrame { ethertype })
    }
}

/// An address in dotted decimal.
pub open spec fn dotted(address: Address) -> Seq<char> {
    decimal(address.a as nat) + seq!['.'] + decimal(address.b as nat) + seq!['.'] + decimal(
        address.c as nat,
    ) + seq!['.'] + decimal(address.d as nat)
}

/// The character for a hexadecimal digit, in lower case.
pub open spec fn hex_char(d: nat) -> char
    recommends
        d < 16,
{
    if d < 10 {
        digit_char(d)
    } else if d == 10 {
        'a'
    } else if d == 11 {
        'b'
    } else if d == 12 {
        'c'
    } else if d == 13 {
        'd'
    } else if d == 14 {
        'e'
    } else {
        'f'
    }
}

/// The four hexadecimal digits of a 16-bit number, leading zeros included.
pub open spec fn hex4(n: u16) -> Seq<char> {
    seq![
        hex_char((n / 4096) as nat),
        hex_char(((n / 256) % 16) as nat),
        hex_char(((n / 16) % 16) as nat),
        hex_char((n % 16) as nat),
    ]
}

/// The line that reports a packet.
pub open spec fn packet_line(packet: Packet) -> Seq<char> {
    match packet {
        Packet::Arp => "ARP packet detected"@,
        Packet::ControlMessage { source, destination } => "ICMP packet from "@ + dotted(source) + " to "@
            + dotted(destination),
        Packet::Tcp { source, source_port, destination, destination_port } => "TCP packet from "@
            + dotted(source) + seq![':'] + decimal(source_port as nat) + " to "@ + dotted(
            destination,
        ) + seq![':'] + decimal(destination_port as nat),
        Packet::Udp { source, source_port, destination, destination_port } => "UDP packet from "@
            + dotted(source) + seq![':'] + decimal(source_port as nat) + " to "@ + dotted(
            destination,
        ) + seq![':'] + decimal(destination_port as nat),
        Packet::OtherIpv4 { protocol } => "IPv4 packet with unknown protocol ("@ + decimal(
            protocol as nat,
        ) + seq![')'],
        Packet::Ipv6 => "IPv6 packet (not parsed in detail)"@,
        Packet::OtherFrame { ethertype } => "Unknown EtherType: 0x"@ + hex4(ethertype),
    }
}

/// Appends an address in dotted decimal.
fn push_dotted(out: &mut String, address: Address)
    ensures
        final(out)@ == old(out)@ + dotted(address),
{
    push_decimal(out, address.a as u64);
    out.push('.');
    push_decimal(out, address.b as u64);
    out.push('.');
    push_decimal(out, address.c as u64);
    out.push('.');
    push_decimal(out, address.d as u64);
    proof {
        assert(out@ =~= old(out)@ + dotted(address));
    }
}

/// Executable form of [`hex_char`].
pub fn hex_digit(d: u8) -> (c: char)
    requires
        d < 16,
    ensures
        c == hex_char(d as nat),
{
    match d {
        0 => '0',
        1 => '1',
        2 => '2',
        3 => '3',
        4 => '4',
        5 => '5',
        6 => '6',
        7 => '7',
        8 => '8',
        9 => '9',
        10 => 'a',
        11 => 'b',
        12 => 'c',
        13 => 'd',
        14 => 'e',
        _ => 'f',
    }
}

/// Appends two endpoints: address and port of the source, `" to "`, address
/// and port of the destination.
fn push_endpoints(
    out: &mut String,
    source: Address,
    source_port: u16,
    destination: Address,
    destination_port: u16,
)
    ensures
        final(out)@ == old(out)@ + dotted(source) + seq![':'] + decimal(source_port as nat)
            + " to "@ + dotted(destination) + seq![':'] + decimal(destination_port as nat),
{
    push_dotted(out, source);
    out.push(':');
    push_decimal(out, source_port as u64);
    out.append(" to ");
    push_dotted(out, destination);
    out.push(':');
    push_decimal(out, destination_port as u64);
    proof {
        assert(out@ =~= old(out)@ + dotted(source) + seq![':'] + decimal(source_port as nat)
            + " to "@ + dotted(destination) + seq![':'] + decimal(destination_port as nat));
    }
}

/// Writes the line that reports a packet.
pub fn describe(packet: Packet) -> (line: String)
    ensures
        line@ == packet_line(packet),
{
    match packet {
        Packet::Arp => String::from_str("ARP packet detected"),
        Packet::ControlMessage { source, destination } => {
            let mut line = String::from_str("ICMP packet from ");
            push_dotted(&mut line, source);
            line.append(" to ");
            push_dotted(&mut line, destination);
            line
        },
        Packet::Tcp { source, source_port, destination, destination_port } => {
            let mut line = String::from_str("TCP packet from ");
            push_endpoints(&mut line, source, source_port, destination, destination_port);
            line
        },
        Packet::Udp { source, source_port, destination, destination_port } => {
            let mut line = String::from_str("UDP packet from ");
            push_endpoints(&mut line, source, source_port, destination, destination_port);
            line
        },
        Packet::OtherIpv4 { protocol } => {
            let mut line = String::from_str("IPv4 packet with unknown protocol (");
            push_decimal(&mut line, protocol as u64);
            line.push(')');
            line
        },
        Packet::Ipv6 => String::from_str("IPv6 packet (not parsed in detail)"),
        Packet::OtherFrame { ethertype } => {
            let mut line = String::from_str("Unknown EtherType: 0x");
            let ghost start = line@;
            line.push(hex_digit((ethertype / 4096) as u8));
            line.push(hex_digit(((ethertype / 256) % 16) as u8));
            line.push(hex_digit(((ethertype / 16) % 16) as u8));
            line.push(hex_digit((ethertype % 16) as u8));
            proof {
                assert(line@ =~= start + hex4(ethertype));
            }
            line
        },
    }
}

/// A frame that is shorter than an Ethernet header is never reported.
pub proof fn lemma_short_frame_is_silent(data: Seq<u8>)
    requires
        data.len() < ETHERNET_HEADER,
    ensures
        frame_packet(data) is None,
{
}

/// Ports are read only from bytes that the frame holds: a TCP or UDP packet
/// is reported only if the frame reaches four bytes past its IPv4 header.
pub proof fn lemma_ports_lie_inside_the_frame(data: Seq<u8>)
    requires
        frame_packet(data) is Some,
        frame_packet(data)->0 is Tcp || frame_packet(data)->0 is Udp,
    ensures
        data.len() >= ETHERNET_HEADER + ipv4_header_len(data) + 4,
        ETHERNET_HEADER + IPV4_MIN_HEADER <= data.len(),
{
    let ethertype = be16(data[12], data[13]);
    assert(ethertype == 0x0800);
}

} // verus!
