use ospf_core::checksum::{fletcher16_checksum, fletcher16_verify, packet_checksum};
use ospf_core::lsa::{
    LinkType, Lsa, LsaAsexternal, LsaHeader, LsaNetwork, LsaRouter, LsaRouterLink,
    LsaRouterLinkTos, LsaSum, LsaType,
};
use ospf_core::packets::{
    DBDFlag, DBDescription, Header, Hello, LinkStateAcknowledgment, LinkStateRequest,
    LinkStateRequestItem, LinkStateUpdate, OSPFPacket, PacketType,
};
use ospf_core::wire::{
    get_u16, get_u32, get_u64, i32_from_bits, i32_to_bits, put_u16, put_u32, put_u64, ParseError,
};

fn header(ls_type: u8, seq: i32) -> LsaHeader {
    LsaHeader {
        age: 0,
        options: 2,
        ls_type,
        link_state_id: 0x03030303,
        advertising_router: 0x03030303,
        sequence_number: seq,
        checksum: 0,
        length: 0,
    }
}

fn link(link_id: u32, link_data: u32, link_type: u8, metric: u16) -> LsaRouterLink {
    LsaRouterLink { link_id, link_data, link_type, tos_num: 0, metric, tos_list: vec![] }
}

fn three_link_router() -> Lsa {
    Lsa::LsaRouter(LsaRouter {
        header: header(1, -0x7FFF_FFFE),
        flags: 0,
        num_links: 3,
        links: vec![
            link(0x0A000000, 0xFFFFFF00, 3, 1),
            link(0x0A000102, 0x0A000101, 1, 10),
            link(0xC0A80101, 0x0A000201, 2, 5),
        ],
    })
}

fn unhex(s: &str) -> Vec<u8> {
    let digits: Vec<u8> = s.bytes().map(|c| if c <= b'9' { c - b'0' } else { c - b'a' + 10 }).collect();
    digits.chunks(2).map(|p| p[0] * 16 + p[1]).collect()
}

fn same_link(a: &LsaRouterLink, b: &LsaRouterLink) -> bool {
    a.link_id == b.link_id
        && a.link_data == b.link_data
        && a.link_type == b.link_type
        && a.tos_num == b.tos_num
        && a.metric == b.metric
        && a.tos_list == b.tos_list
}

#[test]
fn big_endian_writers_put_the_high_byte_first() {
    let mut buf = vec![0xEE];
    put_u16(&mut buf, 0x1234);
    put_u32(&mut buf, 0x89ABCDEF);
    put_u64(&mut buf, 0x0102030405060708);
    assert_eq!(
        buf,
        vec![0xEE, 0x12, 0x34, 0x89, 0xAB, 0xCD, 0xEF, 1, 2, 3, 4, 5, 6, 7, 8]
    );
}

#[test]
fn big_endian_readers_undo_the_writers() {
    let buf = vec![0xEE, 0x12, 0x34, 0x89, 0xAB, 0xCD, 0xEF, 1, 2, 3, 4, 5, 6, 7, 8];
    assert_eq!(get_u16(&buf, 1), 0x1234);
    assert_eq!(get_u32(&buf, 3), 0x89ABCDEF);
    assert_eq!(get_u64(&buf, 7), 0x0102030405060708);
}

#[test]
fn signed_sequence_numbers_keep_their_bit_pattern() {
    assert_eq!(i32_to_bits(-0x7FFF_FFFF), 0x8000_0001);
    assert_eq!(i32_to_bits(0x7FFF_FFFF), 0x7FFF_FFFF);
    assert_eq!(i32_to_bits(-1), 0xFFFF_FFFF);
    assert_eq!(i32_to_bits(0), 0);
    assert_eq!(i32_from_bits(0x8000_0001), -0x7FFF_FFFF);
    assert_eq!(i32_from_bits(0x8000_0000), i32::MIN);
    assert_eq!(i32_from_bits(0xFFFF_FFFF), -1);
    assert_eq!(i32_from_bits(5), 5);
}

#[test]
fn lsa_header_takes_twenty_bytes_in_field_order() {
    let h = LsaHeader {
        age: 0x0102,
        options: 0x03,
        ls_type: 0x04,
        link_state_id: 0x05060708,
        advertising_router: 0x090A0B0C,
        sequence_number: -0x7FFF_FFFF,
        checksum: 0x0D0E,
        length: 0x0F10,
    };
    assert_eq!(
        h.encode(),
        vec![1, 2, 3, 4, 5, 6, 7, 8, 9, 10, 11, 12, 0x80, 0, 0, 1, 13, 14, 15, 16]
    );
}

#[test]
fn type_bytes_run_from_one() {
    assert_eq!(LsaType::LsaRouter.to_byte(), 1);
    assert_eq!(LsaType::LsaNetwork.to_byte(), 2);
    assert_eq!(LsaType::LsaSumnet.to_byte(), 3);
    assert_eq!(LsaType::LsaSumasb.to_byte(), 4);
    assert_eq!(LsaType::LsaAsexternal.to_byte(), 5);
    assert_eq!(LsaType::from_byte(0), None);
    assert_eq!(LsaType::from_byte(3), Some(LsaType::LsaSumnet));
    assert_eq!(LsaType::from_byte(6), None);
    assert_eq!(LinkType::P2P.to_byte(), 1);
    assert_eq!(LinkType::Transit.to_byte(), 2);
    assert_eq!(LinkType::Stub.to_byte(), 3);
    assert_eq!(LinkType::Virtual.to_byte(), 4);
    assert_eq!(LinkType::from_byte(5), None);
    assert_eq!(LinkType::from_byte(2), Some(LinkType::Transit));
    assert_eq!(PacketType::Hello.to_byte(), 1);
    assert_eq!(PacketType::DBD.to_byte(), 2);
    assert_eq!(PacketType::LSR.to_byte(), 3);
    assert_eq!(PacketType::LSU.to_byte(), 4);
    assert_eq!(PacketType::LSAck.to_byte(), 5);
}

#[test]
fn fletcher_round_trip_of_a_router_lsa_with_three_links() {
    let mut lsa = three_link_router();
    lsa.set_checksum_length();
    assert_eq!(lsa.get_hdr().length, 60);
    assert_eq!(lsa.get_hdr().checksum, 0x7bf5);
    let bytes = lsa.encode();
    assert_eq!(
        bytes,
        unhex(
            "000002010303030303030303800000027bf5003c000000030a000000ffffff00030000010a0001020a0001010100000ac0a801010a00020102000005"
        )
    );
    assert!(fletcher16_verify(&bytes[2..]));
    assert!(lsa.checksum_ok());
    let (rest, parsed) = Lsa::parse(&bytes).unwrap();
    assert!(rest.is_empty());
    assert_eq!(parsed.get_hdr(), lsa.get_hdr());
    match (&parsed, &lsa) {
        (Lsa::LsaRouter(p), Lsa::LsaRouter(l)) => {
            assert_eq!(p.flags, l.flags);
            assert_eq!(p.num_links, l.num_links);
            assert_eq!(p.links.len(), 3);
            for i in 0..3 {
                assert!(same_link(&p.links[i], &l.links[i]));
            }
        }
        _ => panic!("a router advertisement was expected"),
    }
    assert!(parsed.checksum_ok());
    assert_eq!(parsed.encode(), bytes);
}

#[test]
fn a_damaged_lsa_fails_its_checksum() {
    let mut lsa = three_link_router();
    lsa.set_checksum_length();
    let mut bytes = lsa.encode();
    bytes[30] ^= 1;
    let (_, parsed) = Lsa::parse(&bytes).unwrap();
    assert!(!parsed.checksum_ok());
    assert!(!fletcher16_verify(&bytes[2..]));
}

#[test]
fn the_age_does_not_enter_the_checksum() {
    let mut lsa = three_link_router();
    lsa.set_checksum_length();
    let mut h = *lsa.get_hdr();
    h.age = 1234;
    lsa.set_hdr(h);
    assert!(lsa.checksum_ok());
}

#[test]
fn fletcher_check_bytes_have_known_values() {
    let data: Vec<u8> = (1..=20).collect();
    assert_eq!(fletcher16_checksum(&data, 14), 0x2329);
    assert_eq!(fletcher16_checksum(&vec![0u8; 18], 14), 0xffff);
    let mut filled = data.clone();
    filled[14] = 0x23;
    filled[15] = 0x29;
    assert!(fletcher16_verify(&filled));
    assert!(!fletcher16_verify(&data));
}

#[test]
fn fletcher_ignores_what_stands_in_the_checksum_field() {
    let mut data: Vec<u8> = (1..=20).collect();
    data[14] = 0xAA;
    data[15] = 0x55;
    assert_eq!(fletcher16_checksum(&data, 14), 0x2329);
}

#[test]
fn every_kind_of_lsa_survives_the_round_trip() {
    let mut with_tos = link(7, 8, 1, 9);
    with_tos.tos_num = 2;
    with_tos.tos_list = vec![
        LsaRouterLinkTos { tos: 1, reserved: 0, metric: 100 },
        LsaRouterLinkTos { tos: 2, reserved: 0, metric: 200 },
    ];
    let mut lsas = vec![
        Lsa::LsaRouter(LsaRouter {
            header: header(1, 5),
            flags: 0x0100,
            num_links: 2,
            links: vec![with_tos, link(1, 2, 3, 4)],
        }),
        Lsa::LsaNetwork(LsaNetwork {
            header: header(2, 6),
            network_mask: 0xFFFFFF00,
            attached_routers: vec![0x01010101, 0x02020202, 0x03030303],
        }),
        Lsa::LsaSumnet(LsaSum { header: header(3, 7), network_mask: 0xFFFF0000, metric: 77 }),
        Lsa::LsaSumasb(LsaSum { header: header(4, 8), network_mask: 0, metric: 88 }),
        Lsa::LsaAsexternal(LsaAsexternal {
            header: header(5, 9),
            network_mask: 0xFF000000,
            metric: 99,
            forwarding_address: 0x0A0A0A0A,
            external_route_tag: 42,
        }),
    ];
    let lengths = [20 + 4 + 20 + 12, 24 + 12, 28, 28, 36];
    for (lsa, want) in lsas.iter_mut().zip(lengths) {
        lsa.set_checksum_length();
        let bytes = lsa.encode();
        assert_eq!(bytes.len(), want);
        assert_eq!(lsa.get_hdr().length as usize, want);
        let (rest, parsed) = Lsa::parse(&bytes).unwrap();
        assert!(rest.is_empty());
        assert_eq!(parsed.encode(), bytes);
        assert_eq!(parsed.get_hdr(), lsa.get_hdr());
        assert!(parsed.checksum_ok());
    }
    match Lsa::parse(&lsas[3].encode()).unwrap().1 {
        Lsa::LsaSumasb(s) => assert_eq!(s.metric, 88),
        _ => panic!("a boundary-router summary was expected"),
    }
    match Lsa::parse(&lsas[1].encode()).unwrap().1 {
        Lsa::LsaNetwork(n) => assert_eq!(n.attached_routers, vec![0x01010101, 0x02020202, 0x03030303]),
        _ => panic!("a network advertisement was expected"),
    }
}

#[test]
fn parsing_leaves_the_bytes_after_the_lsa() {
    let mut lsa = Lsa::LsaSumnet(LsaSum { header: header(3, 7), network_mask: 1, metric: 2 });
    lsa.set_checksum_length();
    let mut bytes = lsa.encode();
    bytes.extend_from_slice(&[9, 8, 7]);
    let (rest, _) = Lsa::parse(&bytes).unwrap();
    assert_eq!(rest, &[9, 8, 7]);
}

#[test]
fn short_buffers_are_rejected_as_short() {
    assert_eq!(Lsa::parse(&[]).err(), Some(ParseError::Short));
    assert_eq!(Lsa::parse(&[0, 0, 2]).err(), Some(ParseError::Short));
    let mut lsa = three_link_router();
    lsa.set_checksum_length();
    let bytes = lsa.encode();
    for cut in [4, 19, 20, 23, 24, 35, 59] {
        assert_eq!(Lsa::parse(&bytes[..cut]).err(), Some(ParseError::Short), "cut at {}", cut);
    }
    assert!(Lsa::parse(&bytes[..60]).is_ok());
}

#[test]
fn unknown_lsa_types_are_rejected_with_a_tag_error() {
    for t in [0u8, 6, 9, 255] {
        let bytes = header(t, 1).encode();
        assert_eq!(Lsa::parse(&bytes).err(), Some(ParseError::Tag));
        assert_eq!(Lsa::parse(&bytes[..4]).err(), Some(ParseError::Tag));
    }
}

#[test]
fn a_network_lsa_takes_its_router_count_from_the_length_field() {
    let mut h = header(2, 1);
    h.length = 24 + 8 + 3;
    let mut bytes = h.encode();
    bytes.extend_from_slice(&[255, 255, 255, 0]);
    bytes.extend_from_slice(&[1, 1, 1, 1, 2, 2, 2, 2, 3, 3, 3, 3]);
    let (rest, parsed) = Lsa::parse(&bytes).unwrap();
    assert_eq!(rest, &[3, 3, 3, 3]);
    match parsed {
        Lsa::LsaNetwork(n) => {
            assert_eq!(n.network_mask, 0xFFFFFF00);
            assert_eq!(n.attached_routers, vec![0x01010101, 0x02020202]);
        }
        _ => panic!("a network advertisement was expected"),
    }
}

#[test]
fn a_network_lsa_with_a_length_under_the_fixed_part_is_rejected() {
    let mut h = header(2, 1);
    h.length = 23;
    let mut bytes = h.encode();
    bytes.extend_from_slice(&[255, 255, 255, 0]);
    assert_eq!(Lsa::parse(&bytes).err(), Some(ParseError::Length));
    h.length = 28;
    let mut bytes = h.encode();
    bytes.extend_from_slice(&[255, 255, 255, 0]);
    assert_eq!(Lsa::parse(&bytes).err(), Some(ParseError::Short));
}

#[test]
fn dbd_flags_survive_the_round_trip_through_a_byte() {
    for bits in 0u8..8 {
        let f = DBDFlag::new(bits & 4 != 0, bits & 2 != 0, bits & 1 != 0);
        assert_eq!(f.to_byte(), bits);
        assert_eq!(DBDFlag::from_byte(f.to_byte()), f);
    }
}

#[test]
fn dbd_flags_read_only_the_three_low_bits() {
    assert_eq!(DBDFlag::from_byte(0xF8), DBDFlag::new(false, false, false));
    assert_eq!(DBDFlag::from_byte(0xFC), DBDFlag::new(true, false, false));
    assert_eq!(DBDFlag::from_byte(0x0A), DBDFlag::new(false, true, false));
    assert_eq!(DBDFlag::get_all_set(), DBDFlag::new(true, true, true));
    assert_eq!(DBDFlag::get_all_set().to_byte(), 7);
}

fn dbd(flags: u8) -> DBDescription {
    DBDescription {
        header: Header::new(PacketType::DBD, 1, 0),
        interface_mtu: 1500,
        options: 2,
        flags,
        dbd_seq_num: 9,
        lsa_hdrs: vec![],
    }
}

#[test]
fn all_flags_are_set_only_with_init_more_and_master() {
    assert!(dbd(7).all_flag_set());
    assert!(dbd(0xFF).all_flag_set());
    assert!(!dbd(6).all_flag_set());
    assert!(!dbd(5).all_flag_set());
    assert!(!dbd(3).all_flag_set());
    assert!(!dbd(0xE0).all_flag_set());
    assert_eq!(dbd(5).get_flag(), DBDFlag::new(true, false, true));
}

fn hello() -> Hello {
    Hello {
        header: Header::new(PacketType::Hello, 0x01010101, 0),
        network_mask: 0xFFFFFF00,
        hello_interval: 10,
        options: 2,
        router_priority: 1,
        router_dead_interval: 40,
        designated_router: 0,
        backup_designated_router: 0,
        neighbors: vec![],
    }
}

#[test]
fn a_new_packet_header_has_version_two_and_nothing_else_set() {
    let h = Header::new(PacketType::LSU, 7, 8);
    assert_eq!(
        h,
        Header {
            version: 2,
            packet_type: 4,
            packet_length: 0,
            router_id: 7,
            area_id: 8,
            checksum: 0,
            auth_type: 0,
            auth: 0
        }
    );
    assert_eq!(h.encode().len(), 24);
}

#[test]
fn hello_packet_gets_length_and_checksum() {
    let mut p = OSPFPacket::Hello(hello());
    p.set_packet_length();
    assert_eq!(p.get_hdr().packet_length, 44);
    p.set_checksum();
    assert_eq!(p.get_hdr().checksum, 0xfa9c);
    let bytes = p.encode();
    assert_eq!(bytes.len(), 44);
    assert_eq!(&bytes[..4], &[2, 1, 0, 44]);
    assert_eq!(packet_checksum(&bytes), 0);
    assert!(p.checksum_ok());
    assert_eq!(p.encode_bincode(), bytes);
}

#[test]
fn setting_the_checksum_twice_gives_the_same_checksum() {
    let mut p = OSPFPacket::Hello(hello());
    p.set_packet_length();
    p.set_checksum();
    let first = p.get_hdr().checksum;
    p.set_checksum();
    assert_eq!(p.get_hdr().checksum, first);
}

#[test]
fn packet_checksum_has_known_values() {
    let ip_header = [
        0x45, 0x00, 0x00, 0x3c, 0x1c, 0x46, 0x40, 0x00, 0x40, 0x06, 0x00, 0x00, 0xac, 0x10, 0x0a,
        0x63, 0xac, 0x10, 0x0a, 0x0c,
    ];
    assert_eq!(packet_checksum(&ip_header), 0xb1e6);
    assert_eq!(packet_checksum(&[]), 0xffff);
    assert_eq!(packet_checksum(&[1]), 0xfeff);
    assert_eq!(packet_checksum(&[0xff, 0xff, 0xff, 0xff]), 0);
}

#[test]
fn every_kind_of_packet_checks_out_after_set_checksum() {
    let mut lsa = three_link_router();
    lsa.set_checksum_length();
    let h = *lsa.get_hdr();
    let mut with_neighbors = hello();
    with_neighbors.neighbors = vec![0x02020202, 0x03030303];
    let mut packets = vec![
        OSPFPacket::Hello(with_neighbors),
        OSPFPacket::DBDescription(DBDescription {
            header: Header::new(PacketType::DBD, 1, 0),
            interface_mtu: 1500,
            options: 2,
            flags: 7,
            dbd_seq_num: 0x01020304,
            lsa_hdrs: vec![h, h],
        }),
        OSPFPacket::LinkStateRequest(LinkStateRequest {
            header: Header::new(PacketType::LSR, 1, 0),
            requests: vec![LinkStateRequestItem {
                link_state_type: 1,
                link_state_id: 2,
                advertising_router: 3,
            }],
        }),
        OSPFPacket::LinkStateUpdate(LinkStateUpdate {
            header: Header::new(PacketType::LSU, 1, 0),
            num_lsa: 1,
            lsas: vec![lsa],
        }),
        OSPFPacket::LinkStateAcknowledgment(LinkStateAcknowledgment {
            header: Header::new(PacketType::LSAck, 1, 0),
            lsas: vec![h],
        }),
    ];
    let lengths = [52, 72, 36, 88, 44];
    for (p, want) in packets.iter_mut().zip(lengths) {
        p.set_packet_length();
        p.set_checksum();
        let bytes = p.encode();
        assert_eq!(bytes.len(), want);
        assert_eq!(p.get_hdr().packet_length as usize, want);
        assert_eq!(packet_checksum(&bytes), 0);
        let (rest, parsed) = OSPFPacket::parse(&bytes).unwrap();
        assert!(rest.is_empty());
        assert_eq!(parsed.encode(), bytes);
        assert_eq!(parsed.get_hdr(), p.get_hdr());
    }
}

#[test]
fn parsed_packets_hold_what_was_sent() {
    let mut h = hello();
    h.neighbors = vec![5, 6, 7];
    h.designated_router = 0x0A000001;
    let bytes = OSPFPacket::Hello(h).encode();
    match OSPFPacket::parse(&bytes).unwrap().1 {
        OSPFPacket::Hello(p) => {
            assert_eq!(p.network_mask, 0xFFFFFF00);
            assert_eq!(p.hello_interval, 10);
            assert_eq!(p.options, 2);
            assert_eq!(p.router_priority, 1);
            assert_eq!(p.router_dead_interval, 40);
            assert_eq!(p.designated_router, 0x0A000001);
            assert_eq!(p.backup_designated_router, 0);
            assert_eq!(p.neighbors, vec![5, 6, 7]);
        }
        _ => panic!("a Hello packet was expected"),
    }
    let lsr = OSPFPacket::LinkStateRequest(LinkStateRequest {
        header: Header::new(PacketType::LSR, 1, 0),
        requests: vec![
            LinkStateRequestItem { link_state_type: 1, link_state_id: 2, advertising_router: 3 },
            LinkStateRequestItem { link_state_type: 4, link_state_id: 5, advertising_router: 6 },
        ],
    });
    match OSPFPacket::parse(&lsr.encode()).unwrap().1 {
        OSPFPacket::LinkStateRequest(p) => {
            assert_eq!(p.requests.len(), 2);
            assert_eq!(
                p.requests[1],
                LinkStateRequestItem { link_state_type: 4, link_state_id: 5, advertising_router: 6 }
            );
        }
        _ => panic!("a Link State Request was expected"),
    }
}

#[test]
fn trailing_lists_take_as_many_whole_items_as_fit() {
    let mut bytes = OSPFPacket::Hello(hello()).encode();
    bytes.extend_from_slice(&[0, 0, 0, 9, 1, 2]);
    let (rest, parsed) = OSPFPacket::parse(&bytes).unwrap();
    assert_eq!(rest, &[1, 2]);
    match parsed {
        OSPFPacket::Hello(p) => assert_eq!(p.neighbors, vec![9]),
        _ => panic!("a Hello packet was expected"),
    }
    let mut bytes = OSPFPacket::DBDescription(dbd(2)).encode();
    bytes.extend_from_slice(&header(1, 3).encode());
    bytes.extend_from_slice(&[0; 19]);
    let (rest, parsed) = OSPFPacket::parse(&bytes).unwrap();
    assert_eq!(rest.len(), 19);
    match parsed {
        OSPFPacket::DBDescription(p) => {
            assert_eq!(p.flags, 2);
            assert_eq!(p.dbd_seq_num, 9);
            assert_eq!(p.interface_mtu, 1500);
            assert_eq!(p.lsa_hdrs, vec![header(1, 3)]);
        }
        _ => panic!("a Database Description was expected"),
    }
}

#[test]
fn packets_of_another_version_or_kind_are_rejected_with_a_tag_error() {
    let mut bytes = OSPFPacket::Hello(hello()).encode();
    bytes[0] = 3;
    assert_eq!(OSPFPacket::parse(&bytes).err(), Some(ParseError::Tag));
    bytes[0] = 2;
    bytes[1] = 0;
    assert_eq!(OSPFPacket::parse(&bytes).err(), Some(ParseError::Tag));
    bytes[1] = 6;
    assert_eq!(OSPFPacket::parse(&bytes).err(), Some(ParseError::Tag));
    assert_eq!(OSPFPacket::parse(&[3, 1]).err(), Some(ParseError::Tag));
}

#[test]
fn short_packets_are_rejected_as_short() {
    assert_eq!(OSPFPacket::parse(&[]).err(), Some(ParseError::Short));
    assert_eq!(OSPFPacket::parse(&[2]).err(), Some(ParseError::Short));
    let bytes = OSPFPacket::Hello(hello()).encode();
    assert_eq!(OSPFPacket::parse(&bytes[..43]).err(), Some(ParseError::Short));
    let mut h = [0u8; 31];
    h[0] = 2;
    h[1] = 2;
    assert_eq!(OSPFPacket::parse(&h).err(), Some(ParseError::Short));
    h[1] = 3;
    assert_eq!(OSPFPacket::parse(&h[..23]).err(), Some(ParseError::Short));
    h[1] = 5;
    assert_eq!(OSPFPacket::parse(&h[..23]).err(), Some(ParseError::Short));
    h[1] = 4;
    assert_eq!(OSPFPacket::parse(&h[..27]).err(), Some(ParseError::Short));
}

#[test]
fn an_update_with_fewer_lsas_than_it_announces_is_rejected() {
    let mut lsa = three_link_router();
    lsa.set_checksum_length();
    let p = OSPFPacket::LinkStateUpdate(LinkStateUpdate {
        header: Header::new(PacketType::LSU, 1, 0),
        num_lsa: 2,
        lsas: vec![lsa],
    });
    assert_eq!(OSPFPacket::parse(&p.encode()).err(), Some(ParseError::Short));
}

#[test]
fn an_update_with_an_lsa_of_unknown_type_is_rejected() {
    let p = OSPFPacket::LinkStateUpdate(LinkStateUpdate {
        header: Header::new(PacketType::LSU, 1, 0),
        num_lsa: 1,
        lsas: vec![],
    });
    let mut bytes = p.encode();
    bytes.extend_from_slice(&header(7, 1).encode());
    assert_eq!(OSPFPacket::parse(&bytes).err(), Some(ParseError::Tag));
}

#[test]
fn the_header_can_be_changed_through_its_mutable_borrow() {
    let mut p = OSPFPacket::Hello(hello());
    p.get_mut_hdr().area_id = 77;
    assert_eq!(p.get_hdr().area_id, 77);
    let mut lsa = three_link_router();
    lsa.get_mut_hdr().age = 12;
    assert_eq!(lsa.get_hdr().age, 12);
    assert!(lsa.get_rtr().is_some());
    lsa.get_rtr().unwrap().flags = 3;
    match &lsa {
        Lsa::LsaRouter(r) => assert_eq!(r.flags, 3),
        _ => panic!("a router advertisement was expected"),
    }
    let mut sum = Lsa::LsaSumnet(LsaSum { header: header(3, 1), network_mask: 0, metric: 0 });
    assert!(sum.get_rtr().is_none());
}

#[test]
fn a_new_router_link_has_only_its_metric_set() {
    let l = LsaRouterLink::new(17);
    assert_eq!(l.metric, 17);
    assert_eq!((l.link_id, l.link_data, l.link_type, l.tos_num), (0, 0, 0, 0));
    assert!(l.tos_list.is_empty());
    assert_eq!(l.encode(), vec![0, 0, 0, 0, 0, 0, 0, 0, 0, 0, 0, 17]);
}
