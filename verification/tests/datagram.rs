use ospf_core::checksum::packet_checksum;
use ospf_core::config::Config;
use ospf_core::interface::{Interface, InterfaceType};
use ospf_core::ipv4::{
    frame, unframe, ETHERNET_HEADER_SIZE, HEADER_WORDS, IPV4_HEADER_SIZE, IP_VERSION,
    OSPF_PROTOCOL, OSPF_TTL,
};
use ospf_core::packets::{Header, Hello, OSPFPacket, PacketType};
use ospf_core::sender::{datagram_for, prepare};

const MASK: u32 = 0xFFFFFF00;
const ADDR: u32 = 0x0A000001;
const PEER_ADDR: u32 = 0x0A000002;
const ALL_ROUTERS: u32 = 0xE0000005;

fn unhex(s: &str) -> Vec<u8> {
    (0..s.len()).step_by(2).map(|i| u8::from_str_radix(&s[i..i + 2], 16).unwrap()).collect()
}

fn hello(router_id: u32) -> OSPFPacket {
    OSPFPacket::Hello(Hello {
        header: Header::new(PacketType::Hello, router_id, 0),
        network_mask: MASK,
        hello_interval: 10,
        options: 2,
        router_priority: 1,
        router_dead_interval: 40,
        designated_router: 0,
        backup_designated_router: 0,
        neighbors: vec![],
    })
}

fn interface() -> Interface {
    let mut config = Config::new();
    config.router_id = 0x01010101;
    Interface::from(String::from("eth0"), InterfaceType::Broadcast, ADDR, MASK, &config)
}

/// A frame as the link hands it over: an Ethernet header and the datagram.
fn captured(datagram: &[u8]) -> Vec<u8> {
    let mut bytes = vec![0xFFu8; ETHERNET_HEADER_SIZE];
    bytes.extend_from_slice(datagram);
    bytes
}

#[test]
fn the_constants_of_the_encapsulation() {
    assert_eq!(ETHERNET_HEADER_SIZE, 14);
    assert_eq!(IPV4_HEADER_SIZE, 20);
    assert_eq!(IP_VERSION, 4);
    assert_eq!(HEADER_WORDS, 5);
    assert_eq!(OSPF_TTL, 1);
    assert_eq!(OSPF_PROTOCOL, 89);
}

#[test]
fn a_datagram_has_its_header_field_by_field() {
    let bytes = frame(&[1, 2, 3, 4], 0xC0A80001, ALL_ROUTERS);
    assert_eq!(bytes, unhex("4500001800000000015918dfc0a80001e000000501020304"));
}

#[test]
fn a_datagram_without_payload_is_a_header_alone() {
    let bytes = frame(&[], 0x0A000001, 0x0A000002);
    assert_eq!(bytes.len(), 20);
    assert_eq!(&bytes[..4], &[0x45, 0, 0, 20]);
    assert_eq!(&bytes[12..], &[10, 0, 0, 1, 10, 0, 0, 2]);
}

#[test]
fn the_header_of_a_datagram_checks_out() {
    for len in [0usize, 1, 44, 180] {
        let payload = vec![0xA5u8; len];
        let bytes = frame(&payload, ADDR, ALL_ROUTERS);
        assert_eq!(bytes.len(), 20 + len);
        assert_eq!(packet_checksum(&bytes[..20]), 0);
        assert_eq!(usize::from(bytes[2]) * 256 + usize::from(bytes[3]), 20 + len);
        assert_eq!(&bytes[20..], &payload[..]);
    }
}

#[test]
fn what_was_framed_is_carried() {
    let payload: Vec<u8> = (0u8..50).collect();
    let bytes = captured(&frame(&payload, PEER_ADDR, ADDR));
    assert_eq!(unframe(&bytes), Some((ADDR, PEER_ADDR, payload)));
}

#[test]
fn a_frame_too_short_for_both_headers_carries_nothing() {
    let bytes = captured(&frame(&[], PEER_ADDR, ADDR));
    assert_eq!(bytes.len(), 34);
    assert_eq!(unframe(&bytes), Some((ADDR, PEER_ADDR, vec![])));
    assert_eq!(unframe(&bytes[..33]), None);
    assert_eq!(unframe(&bytes[..14]), None);
    assert_eq!(unframe(&[]), None);
}

#[test]
fn another_version_or_protocol_carries_nothing() {
    let good = captured(&frame(&[9, 9], PEER_ADDR, ADDR));
    let mut other_version = good.clone();
    other_version[14] = 0x65;
    assert_eq!(unframe(&other_version), None);
    let mut udp = good.clone();
    udp[14 + 9] = 17;
    assert_eq!(unframe(&udp), None);
    assert_eq!(unframe(&good), Some((ADDR, PEER_ADDR, vec![9, 9])));
}

#[test]
fn the_payload_starts_behind_the_options() {
    let mut datagram = unhex("4600001c000000000159");
    datagram.extend_from_slice(&[0, 0, 10, 0, 0, 2, 10, 0, 0, 1]);
    datagram.extend_from_slice(&[1, 1, 1, 1]);
    datagram.extend_from_slice(&[7, 8, 9, 10]);
    assert_eq!(unframe(&captured(&datagram)), Some((ADDR, PEER_ADDR, vec![7, 8, 9, 10])));
}

#[test]
fn the_payload_ends_with_the_total_length_or_with_the_frame() {
    let mut datagram = frame(&[1, 2, 3, 4, 5, 6], PEER_ADDR, ADDR);
    datagram[3] = 23;
    assert_eq!(unframe(&captured(&datagram)), Some((ADDR, PEER_ADDR, vec![1, 2, 3])));
    datagram[3] = 200;
    assert_eq!(unframe(&captured(&datagram)), Some((ADDR, PEER_ADDR, vec![1, 2, 3, 4, 5, 6])));
    datagram[3] = 7;
    assert_eq!(unframe(&captured(&datagram)), Some((ADDR, PEER_ADDR, vec![])));
}

#[test]
fn a_packet_goes_out_ready_and_framed() {
    let mut packet = hello(0x02020202);
    let bytes = datagram_for(&mut packet, PEER_ADDR, ALL_ROUTERS).unwrap();
    assert_eq!(bytes.len(), 20 + 44);
    assert_eq!(&bytes[..10], &unhex("45000040000000000159")[..]);
    assert_eq!(packet_checksum(&bytes[..20]), 0);
    assert_eq!(&bytes[12..20], &[10, 0, 0, 2, 224, 0, 0, 5]);
    let mut same = hello(0x02020202);
    assert_eq!(&bytes[20..], &prepare(&mut same).unwrap()[..]);
    assert_eq!(packet.get_hdr().packet_length, 44);
    assert!(packet.checksum_ok());
}

#[test]
fn a_packet_too_large_for_the_buffer_is_not_framed() {
    let mut packet = hello(0x02020202);
    if let OSPFPacket::Hello(h) = &mut packet {
        h.neighbors = vec![7; 35];
    }
    assert_eq!(datagram_for(&mut packet, PEER_ADDR, ALL_ROUTERS), None);
    assert_eq!(packet.get_hdr().packet_length, 0);
    if let OSPFPacket::Hello(h) = &mut packet {
        h.neighbors = vec![7; 34];
    }
    assert_eq!(datagram_for(&mut packet, PEER_ADDR, ALL_ROUTERS).unwrap().len(), 200);
}

#[test]
fn an_interface_takes_the_packet_out_of_a_frame() {
    let iface = interface();
    let mut packet = hello(0x02020202);
    let datagram = datagram_for(&mut packet, PEER_ADDR, ALL_ROUTERS).unwrap();
    let (taken, src) = iface.take_frame(&captured(&datagram)).unwrap();
    assert_eq!(src, PEER_ADDR);
    assert_eq!(taken.encode(), packet.encode());
    let direct = datagram_for(&mut packet, PEER_ADDR, ADDR).unwrap();
    assert!(iface.take_frame(&captured(&direct)).is_some());
}

#[test]
fn an_interface_leaves_aside_frames_that_are_not_for_it() {
    let iface = interface();
    let mut packet = hello(0x02020202);
    let elsewhere = datagram_for(&mut packet, PEER_ADDR, 0x0A000003).unwrap();
    assert!(iface.take_frame(&captured(&elsewhere)).is_none());
    let own = datagram_for(&mut packet, ADDR, ALL_ROUTERS).unwrap();
    assert!(iface.take_frame(&captured(&own)).is_none());
    let mut damaged = datagram_for(&mut packet, PEER_ADDR, ALL_ROUTERS).unwrap();
    damaged[20 + 30] ^= 1;
    assert!(iface.take_frame(&captured(&damaged)).is_none());
    let mut udp = datagram_for(&mut packet, PEER_ADDR, ALL_ROUTERS).unwrap();
    udp[9] = 17;
    assert!(iface.take_frame(&captured(&udp)).is_none());
    assert!(iface.take_frame(&[0u8; 20]).is_none());
}
