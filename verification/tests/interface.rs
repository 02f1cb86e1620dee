use ospf_core::config::Config;
use ospf_core::database::{DatabaseRequestType, DatabaseResponse, InterfaceAddr, LinkStateDatabase};
use ospf_core::interface::{
    Action, Interface, InterfaceEvent, InterfaceState, InterfaceType, ALL_SPF_ROUTERS,
};
use ospf_core::lsa::{Lsa, LsaHeader, LsaRouter};
use ospf_core::neighbor::{NbrEvent, NbrState, Neighbor};
use ospf_core::packets::{
    DBDescription, Header, Hello, LinkStateRequest, LinkStateRequestItem, LinkStateUpdate,
    OSPFPacket, PacketType,
};
use ospf_core::ipv4::IPV4_HEADER_SIZE;
use ospf_core::sender::{prepare, SenderResponse, SENDER_BUFFER_SIZE};

const MASK: u32 = 0xFFFFFF00;
const ME: u32 = 0x01010101;
const ADDR: u32 = 0x0A000001;
const PEER: u32 = 0x02020202;
const PEER_ADDR: u32 = 0x0A000002;

fn config(router_id: u32) -> Config {
    Config { router_id, network_mask: MASK, ..Config::new() }
}

fn interface(int_type: InterfaceType) -> Interface {
    Interface::from(String::from("eth0"), int_type, ADDR, MASK, &config(ME))
}

fn neighbor(id: u32, ip: u32, state: NbrState) -> Neighbor {
    let mut n = Neighbor::default();
    n.nbr_id = id;
    n.nbr_ip = ip;
    n.nbr_pri = 1;
    n.state = state;
    n
}

fn hello_from(router_id: u32, dr: u32, bdr: u32, neighbors: Vec<u32>) -> Hello {
    Hello {
        header: Header::new(PacketType::Hello, router_id, 0),
        network_mask: MASK,
        hello_interval: 10,
        options: 2,
        router_priority: 1,
        router_dead_interval: 40,
        designated_router: dr,
        backup_designated_router: bdr,
        neighbors,
    }
}

fn router_lsa(id: u32, seq: i32) -> Lsa {
    let mut lsa = Lsa::LsaRouter(LsaRouter {
        header: LsaHeader {
            age: 0,
            options: 2,
            ls_type: 1,
            link_state_id: id,
            advertising_router: id,
            sequence_number: seq,
            checksum: 0,
            length: 0,
        },
        flags: 0,
        num_links: 0,
        links: vec![],
    });
    lsa.set_checksum_length();
    lsa
}

fn sends(actions: &[Action]) -> Vec<(u32, u8)> {
    actions
        .iter()
        .map(|a| match a {
            Action::Send(dst, p) => (*dst, p.get_hdr().packet_type),
            Action::Originate(_) => (0, 0),
        })
        .collect()
}

#[test]
fn a_new_interface_is_down_and_takes_its_values_from_the_configuration() {
    let i = interface(InterfaceType::Broadcast);
    assert_eq!(i.name, "eth0");
    assert_eq!(i.router_id, ME);
    assert_eq!(i.int_type, InterfaceType::Broadcast);
    assert_eq!(i.state, InterfaceState::Down);
    assert_eq!((i.addr, i.mask, i.area_id), (ADDR, MASK, 0));
    assert_eq!((i.hello_interval, i.dead_interval, i.rxmt_interval), (10, 40, 5));
    assert_eq!((i.inf_transit_delay, i.router_priority, i.int_output_cost), (1, 1, 1));
    assert_eq!(i.hello_timer.period(), 10);
    assert_eq!(i.wait_timer.period(), 40);
    assert!(!i.hello_timer.is_up() && !i.wait_timer.is_up());
    assert_eq!((i.designated_router, i.backup_designated_router), (0, 0));
    assert!(i.neighbor_list.is_empty() && i.last_nbr_state.is_empty());
}

#[test]
fn coming_up_the_interface_waits_and_advertises_a_stub_link() {
    let mut i = interface(InterfaceType::Broadcast);
    let actions = i.handle_event(InterfaceEvent::InterfaceUp);
    assert_eq!(i.state, InterfaceState::Waiting);
    assert!(i.wait_timer.is_up());
    assert!(i.hello_timer.is_up());
    assert!(i.hello_timer.is_expired());
    assert_eq!(actions.len(), 1);
    match &actions[0] {
        Action::Originate(DatabaseRequestType::GenRouterLsa(link, addr)) => {
            assert_eq!(*addr, ADDR);
            assert_eq!(link.link_type, 3);
            assert_eq!(link.link_id, 0x0A000000);
            assert_eq!(link.link_data, MASK);
            assert_eq!(link.metric, 1);
            assert_eq!(link.tos_num, 0);
        }
        _ => panic!("the origination of the router advertisement was expected"),
    }
}

#[test]
fn going_down_or_into_loopback_closes_the_interface() {
    for (event, state) in [
        (InterfaceEvent::InterfaceDown, InterfaceState::Down),
        (InterfaceEvent::LoopInd, InterfaceState::Loopback),
    ] {
        let mut i = interface(InterfaceType::Broadcast);
        i.handle_event(InterfaceEvent::InterfaceUp);
        i.neighbor_list.push(neighbor(PEER, PEER_ADDR, NbrState::Full));
        i.update_nbr_states();
        let actions = i.handle_event(event);
        assert!(actions.is_empty());
        assert_eq!(i.state, state);
        assert!(!i.hello_timer.is_up() && !i.wait_timer.is_up());
        assert!(i.neighbor_list.is_empty() && i.last_nbr_state.is_empty());
    }
    let mut i = interface(InterfaceType::Broadcast);
    i.handle_event(InterfaceEvent::LoopInd);
    assert!(i.handle_event(InterfaceEvent::UnloopInd).is_empty());
    assert_eq!(i.state, InterfaceState::Down);
    assert!(i.query_gen_router_lsa().is_empty());
}

#[test]
fn the_end_of_the_wait_makes_a_lone_router_designated_router() {
    let mut i = interface(InterfaceType::Broadcast);
    i.handle_event(InterfaceEvent::InterfaceUp);
    let actions = i.handle_event(InterfaceEvent::WaitTimer);
    assert_eq!(i.state, InterfaceState::DR);
    assert_eq!((i.designated_router, i.backup_designated_router), (ADDR, 0));
    assert_eq!(actions.len(), 1);
    match &actions[0] {
        Action::Originate(DatabaseRequestType::GenRouterLsa(link, addr)) => {
            assert_eq!(*addr, ADDR);
            assert_eq!((link.link_type, link.link_id, link.link_data), (2, ADDR, ADDR));
        }
        _ => panic!("the origination of the router advertisement was expected"),
    }
}

#[test]
fn adjacencies_are_formed_with_the_designated_router_and_its_backup() {
    let mut i = interface(InterfaceType::Broadcast);
    assert!(!i.decide_adjacency(PEER_ADDR));
    i.designated_router = PEER_ADDR;
    assert!(i.decide_adjacency(PEER_ADDR));
    assert!(!i.decide_adjacency(0x0A000003));
    i.designated_router = 0x0A000004;
    i.backup_designated_router = PEER_ADDR;
    assert!(i.decide_adjacency(PEER_ADDR));
    assert!(!i.decide_adjacency(0x0A000003));
    i.backup_designated_router = ADDR;
    assert!(i.decide_adjacency(0x0A000003));
    i.backup_designated_router = 0;
    i.designated_router = ADDR;
    assert!(i.decide_adjacency(0x0A000003));
    for t in [InterfaceType::P2P, InterfaceType::P2MP, InterfaceType::Virtual] {
        assert!(interface(t).decide_adjacency(0x0A000003));
    }
    assert!(!interface(InterfaceType::NBMA).decide_adjacency(0x0A000003));
}

#[test]
fn an_election_tells_the_neighbors_to_look_at_their_adjacencies() {
    let mut i = interface(InterfaceType::Broadcast);
    i.state = InterfaceState::Waiting;
    i.neighbor_list.push(neighbor(PEER, PEER_ADDR, NbrState::TwoWay));
    i.neighbor_list.push(neighbor(0x03030303, 0x0A000003, NbrState::TwoWay));
    i.neighbor_list.push(neighbor(0x04040404, 0x0A000004, NbrState::Init));
    let actions = i.elect_dr_bdr();
    assert!(actions.is_empty());
    assert_eq!(i.designated_router, 0x0A000003);
    assert_eq!(i.backup_designated_router, 0x0A000003);
    assert_eq!(i.state, InterfaceState::DROther);
    assert_eq!(i.neighbor_list[0].state, NbrState::TwoWay);
    assert_eq!(i.neighbor_list[1].state, NbrState::ExStart);
    assert_eq!(i.neighbor_list[2].state, NbrState::Init);
    let actions = i.elect_dr_bdr();
    assert!(actions.is_empty());
    assert_eq!(i.neighbor_list[1].dd_seq_number, 1);
}

#[test]
fn the_designated_router_originates_the_network_lsa_for_its_full_neighbors() {
    let mut i = interface(InterfaceType::Broadcast);
    i.state = InterfaceState::DR;
    i.designated_router = ADDR;
    assert!(i.query_gen_network_lsa().is_empty());
    i.neighbor_list.push(neighbor(PEER, PEER_ADDR, NbrState::Full));
    i.neighbor_list.push(neighbor(0x03030303, 0x0A000003, NbrState::Loading));
    i.neighbor_list.push(neighbor(0x04040404, 0x0A000004, NbrState::Full));
    assert_eq!(i.full_neighbor_ids(), vec![PEER, 0x04040404]);
    let actions = i.query_gen_network_lsa();
    assert_eq!(actions.len(), 1);
    match &actions[0] {
        Action::Originate(DatabaseRequestType::GenNetworkLsa(addr, mask, ids)) => {
            assert_eq!((*addr, *mask), (ADDR, MASK));
            assert_eq!(ids, &vec![PEER, 0x04040404]);
        }
        _ => panic!("the origination of the network advertisement was expected"),
    }
}

#[test]
fn the_router_link_is_a_transit_link_once_the_designated_router_is_full() {
    let mut i = interface(InterfaceType::Broadcast);
    assert!(i.router_link().is_none());
    i.state = InterfaceState::DROther;
    i.designated_router = PEER_ADDR;
    i.int_output_cost = 0x1_0005;
    i.neighbor_list.push(neighbor(PEER, PEER_ADDR, NbrState::Loading));
    let link = i.router_link().unwrap();
    assert_eq!((link.link_type, link.link_id, link.link_data, link.metric), (3, 0x0A000000, MASK, 5));
    i.neighbor_list[0].state = NbrState::Full;
    let link = i.router_link().unwrap();
    assert_eq!((link.link_type, link.link_id, link.link_data, link.metric), (2, PEER_ADDR, ADDR, 5));
}

#[test]
fn neighbors_are_found_by_address_and_by_router_id() {
    let mut i = interface(InterfaceType::Broadcast);
    i.neighbor_list.push(neighbor(PEER, PEER_ADDR, NbrState::Full));
    i.neighbor_list.push(neighbor(0x03030303, 0x0A000003, NbrState::Full));
    i.neighbor_list.push(neighbor(PEER, 0x0A000003, NbrState::Full));
    assert_eq!(i.get_neighbor_index(PEER_ADDR), Some(0));
    assert_eq!(i.get_neighbor_index(0x0A000003), Some(1));
    assert_eq!(i.get_neighbor_index(PEER), None);
    assert_eq!(i.get_neighbor_by_id(PEER), Some(0));
    assert_eq!(i.get_neighbor_by_id(0x03030303), Some(1));
    assert_eq!(i.get_neighbor_by_id(PEER_ADDR), None);
}

#[test]
fn a_change_of_neighbors_is_seen_against_the_states_last_noted() {
    let mut i = interface(InterfaceType::Broadcast);
    i.state = InterfaceState::DR;
    i.designated_router = ADDR;
    assert_eq!(i.check_nbr_change().0, false);
    i.neighbor_list.push(neighbor(PEER, PEER_ADDR, NbrState::Init));
    assert_eq!(i.check_nbr_change().0, true);
    i.update_nbr_states();
    assert_eq!(i.last_nbr_state, vec![(PEER_ADDR, NbrState::Init)]);
    let (changed, actions) = i.check_nbr_change();
    assert!(!changed && actions.is_empty());
    i.neighbor_list[0].state = NbrState::TwoWay;
    let (changed, actions) = i.check_nbr_change();
    assert!(changed && actions.is_empty());
    i.update_nbr_states();
    i.neighbor_list[0].state = NbrState::Full;
    let (changed, actions) = i.check_nbr_change();
    assert!(!changed);
    assert_eq!(actions.len(), 2);
    assert!(matches!(&actions[0], Action::Originate(DatabaseRequestType::GenRouterLsa(_, _))));
    assert!(matches!(&actions[1], Action::Originate(DatabaseRequestType::GenNetworkLsa(_, _, _))));
    i.state = InterfaceState::BDR;
    assert_eq!(i.check_nbr_change().1.len(), 1);
    i.update_nbr_states();
    assert!(i.check_nbr_change().1.is_empty());
    i.neighbor_list[0].state = NbrState::ExStart;
    assert_eq!(i.check_nbr_change().1.len(), 1);
    i.neighbor_list.clear();
    let (changed, actions) = i.check_nbr_change();
    assert!(changed);
    assert_eq!(actions.len(), 1);
}

#[test]
fn a_datagram_is_taken_if_it_is_meant_for_the_interface_and_intact() {
    let i = interface(InterfaceType::Broadcast);
    let mut p = OSPFPacket::Hello(hello_from(PEER, 0, 0, vec![ME]));
    let bytes = prepare(&mut p).unwrap();
    match i.take_datagram(ALL_SPF_ROUTERS, PEER_ADDR, &bytes) {
        Some(OSPFPacket::Hello(h)) => assert_eq!(h.neighbors, vec![ME]),
        _ => panic!("a Hello packet was expected"),
    }
    assert!(i.take_datagram(ADDR, PEER_ADDR, &bytes).is_some());
    assert!(i.take_datagram(PEER_ADDR, PEER_ADDR, &bytes).is_none());
    assert!(i.take_datagram(ADDR, ADDR, &bytes).is_none());
    assert!(i.take_datagram(ADDR, PEER_ADDR, &bytes[..40]).is_none());
    let mut damaged = bytes.clone();
    damaged[30] ^= 0x40;
    assert!(i.take_datagram(ADDR, PEER_ADDR, &damaged).is_none());
    let mut other_version = bytes.clone();
    other_version[0] = 3;
    assert!(i.take_datagram(ADDR, PEER_ADDR, &other_version).is_none());
}

#[test]
fn the_hello_packet_lists_the_neighbors_by_router_id() {
    let mut i = interface(InterfaceType::Broadcast);
    i.designated_router = ADDR;
    i.backup_designated_router = PEER_ADDR;
    i.neighbor_list.push(neighbor(PEER, PEER_ADDR, NbrState::Init));
    i.neighbor_list.push(neighbor(0x03030303, 0x0A000003, NbrState::Down));
    match i.send_hello(&config(ME)) {
        Action::Send(dst, OSPFPacket::Hello(h)) => {
            assert_eq!(dst, ALL_SPF_ROUTERS);
            assert_eq!(dst, 0xE0000005);
            assert_eq!(h.header, Header::new(PacketType::Hello, ME, 0));
            assert_eq!(h.network_mask, MASK);
            assert_eq!(h.hello_interval, 10);
            assert_eq!(h.options, 2);
            assert_eq!(h.router_priority, 1);
            assert_eq!(h.router_dead_interval, 40);
            assert_eq!(h.designated_router, ADDR);
            assert_eq!(h.backup_designated_router, PEER_ADDR);
            assert_eq!(h.neighbors, vec![PEER, 0x03030303]);
        }
        _ => panic!("the sending of a Hello packet was expected"),
    }
}

#[test]
fn the_other_packets_carry_what_they_are_given() {
    let i = interface(InterfaceType::Broadcast);
    let c = config(ME);
    let lsa = router_lsa(5, 1);
    let h = *lsa.get_hdr();
    match i.send_dbd_packet(&c, PEER_ADDR, 3, 77, vec![h]) {
        Action::Send(dst, OSPFPacket::DBDescription(p)) => {
            assert_eq!(dst, PEER_ADDR);
            assert_eq!(p.header, Header::new(PacketType::DBD, ME, 0));
            assert_eq!((p.interface_mtu, p.options, p.flags, p.dbd_seq_num), (1500, 2, 3, 77));
            assert_eq!(p.lsa_hdrs, vec![h]);
        }
        _ => panic!("the sending of a Database Description was expected"),
    }
    match i.send_lsu(&c, PEER_ADDR, vec![lsa.clone(), lsa.clone()]) {
        Action::Send(dst, OSPFPacket::LinkStateUpdate(p)) => {
            assert_eq!(dst, PEER_ADDR);
            assert_eq!(p.header.packet_type, 4);
            assert_eq!(p.num_lsa, 2);
            assert_eq!(p.lsas.len(), 2);
        }
        _ => panic!("the sending of a Link State Update was expected"),
    }
    match i.flood_lsu(&c, vec![lsa.clone()]) {
        Action::Send(dst, OSPFPacket::LinkStateUpdate(p)) => {
            assert_eq!(dst, ALL_SPF_ROUTERS);
            assert_eq!(p.num_lsa, 1);
        }
        _ => panic!("the sending of a Link State Update was expected"),
    }
    match i.send_lsack(&c, PEER_ADDR, vec![h]) {
        Action::Send(dst, OSPFPacket::LinkStateAcknowledgment(p)) => {
            assert_eq!(dst, PEER_ADDR);
            assert_eq!(p.header.packet_type, 5);
            assert_eq!(p.lsas, vec![h]);
        }
        _ => panic!("the sending of a Link State Acknowledgment was expected"),
    }
    let item = LinkStateRequestItem { link_state_type: 1, link_state_id: 5, advertising_router: 5 };
    match i.send_lsr(&c, PEER_ADDR, vec![item]) {
        Action::Send(dst, OSPFPacket::LinkStateRequest(p)) => {
            assert_eq!(dst, PEER_ADDR);
            assert_eq!(p.header.packet_type, 3);
            assert_eq!(p.requests, vec![item]);
        }
        _ => panic!("the sending of a Link State Request was expected"),
    }
    assert_eq!(sends(&i.flood_reply(&c, DatabaseResponse::Lsa(lsa))), vec![(ALL_SPF_ROUTERS, 4)]);
    assert!(i.flood_reply(&c, DatabaseResponse::UpdateDone).is_empty());
    assert!(i.flood_reply(&c, DatabaseResponse::Refused).is_empty());
}

#[test]
fn datagrams_for_this_interface_or_for_all_routers_are_taken() {
    let i = interface(InterfaceType::Broadcast);
    assert!(i.check_ip(ADDR));
    assert!(i.check_ip(0xE0000005));
    assert!(!i.check_ip(PEER_ADDR));
    assert!(!i.check_ip(0xE0000006));
}

#[test]
fn a_hello_makes_its_sender_a_neighbor() {
    let mut i = interface(InterfaceType::Broadcast);
    i.handle_event(InterfaceEvent::InterfaceUp);
    let actions = i.handle_hello(hello_from(PEER, 0, 0, vec![]), PEER_ADDR, &config(ME));
    assert!(actions.is_empty());
    assert_eq!(i.neighbor_list.len(), 1);
    let n = &i.neighbor_list[0];
    assert_eq!((n.nbr_id, n.nbr_ip, n.nbr_pri), (PEER, PEER_ADDR, 1));
    assert_eq!(n.state, NbrState::Init);
    assert!(n.inactivity_timer.is_up());
    assert_eq!(n.inactivity_timer.period(), 40);
    let actions = i.handle_hello(hello_from(PEER, 0, 0, vec![9, ME]), PEER_ADDR, &config(ME));
    assert!(actions.is_empty());
    assert_eq!(i.neighbor_list.len(), 1);
    assert_eq!(i.neighbor_list[0].state, NbrState::TwoWay);
    let actions = i.handle_hello(hello_from(PEER, 0, 0, vec![9]), PEER_ADDR, &config(ME));
    assert!(actions.is_empty());
    assert_eq!(i.neighbor_list[0].state, NbrState::Init);
}

#[test]
fn a_neighbor_that_declares_itself_while_the_interface_waits_ends_the_wait() {
    let mut i = interface(InterfaceType::Broadcast);
    i.handle_event(InterfaceEvent::InterfaceUp);
    let actions =
        i.handle_hello(hello_from(PEER, PEER_ADDR, 0, vec![ME]), PEER_ADDR, &config(ME));
    assert_eq!(i.state, InterfaceState::BDR);
    assert_eq!((i.designated_router, i.backup_designated_router), (PEER_ADDR, ADDR));
    assert_eq!(i.neighbor_list[0].state, NbrState::ExStart);
    assert_eq!(actions.len(), 1);
    assert!(matches!(&actions[0], Action::Originate(DatabaseRequestType::GenRouterLsa(_, _))));
}

#[test]
fn a_neighbor_whose_declaration_changes_makes_the_interface_elect_again() {
    let mut i = interface(InterfaceType::Broadcast);
    i.handle_event(InterfaceEvent::InterfaceUp);
    i.handle_event(InterfaceEvent::WaitTimer);
    assert_eq!(i.state, InterfaceState::DR);
    i.handle_hello(hello_from(PEER, 0, 0, vec![ME]), PEER_ADDR, &config(ME));
    assert_eq!(i.neighbor_list[0].state, NbrState::ExStart);
    assert_eq!(i.backup_designated_router, 0);
    let actions = i.handle_hello(hello_from(PEER, ADDR, PEER_ADDR, vec![ME]), PEER_ADDR, &config(ME));
    assert_eq!(i.state, InterfaceState::DR);
    assert_eq!((i.designated_router, i.backup_designated_router), (ADDR, PEER_ADDR));
    assert_eq!(actions.len(), 1);
    let actions = i.handle_hello(hello_from(PEER, ADDR, PEER_ADDR, vec![ME]), PEER_ADDR, &config(ME));
    assert!(actions.is_empty());
}

#[test]
fn packets_from_strangers_are_left_aside() {
    let mut i = interface(InterfaceType::Broadcast);
    let c = config(ME);
    let packet = DBDescription {
        header: Header::new(PacketType::DBD, PEER, 0),
        interface_mtu: 1500,
        options: 2,
        flags: 7,
        dbd_seq_num: 1,
        lsa_hdrs: vec![],
    };
    assert!(i.handle_dbd(packet, &c, &vec![]).is_empty());
    let lsr = LinkStateRequest { header: Header::new(PacketType::LSR, PEER, 0), requests: vec![] };
    assert!(i.handle_lsr(lsr, &c, vec![]).is_empty());
    let (actions, out) = i.handle_lsa(PEER, &router_lsa(5, 1), None, false, &c);
    assert!(actions.is_empty());
    assert!(out.abort && !out.accept && !out.ack && !out.reply);
    assert!(i.neighbor_list.is_empty());
}

#[test]
fn a_request_is_answered_with_what_the_database_holds() {
    let mut i = interface(InterfaceType::Broadcast);
    let c = config(ME);
    i.neighbor_list.push(neighbor(PEER, PEER_ADDR, NbrState::Exchange));
    let item = LinkStateRequestItem { link_state_type: 1, link_state_id: 5, advertising_router: 5 };
    let lsr = || LinkStateRequest { header: Header::new(PacketType::LSR, PEER, 0), requests: vec![item] };
    let actions = i.handle_lsr(lsr(), &c, vec![router_lsa(5, 1)]);
    assert_eq!(sends(&actions), vec![(PEER_ADDR, 4)]);
    assert_eq!(i.neighbor_list[0].state, NbrState::Exchange);
    let actions = i.handle_lsr(lsr(), &c, vec![]);
    assert!(actions.is_empty());
    assert_eq!(i.neighbor_list[0].state, NbrState::ExStart);
    let actions = i.handle_lsr(lsr(), &c, vec![router_lsa(5, 1)]);
    assert!(actions.is_empty());
    assert_eq!(i.neighbor_list[0].state, NbrState::ExStart);
}

#[test]
fn an_accepted_lsa_is_flooded_acknowledged_and_forgotten_by_the_other_neighbors() {
    let mut i = interface(InterfaceType::Broadcast);
    let c = config(ME);
    let lsa = router_lsa(5, 2);
    let h = *lsa.get_hdr();
    for (id, ip) in [(PEER, PEER_ADDR), (0x03030303, 0x0A000003)] {
        let mut n = neighbor(id, ip, NbrState::Full);
        n.lsa_retransmission_list = vec![h];
        i.neighbor_list.push(n);
    }
    let (actions, out) = i.handle_lsa(PEER, &lsa, None, false, &c);
    assert!(out.accept && out.ack && !out.abort && !out.reply);
    assert_eq!(sends(&actions), vec![(ALL_SPF_ROUTERS, 4), (PEER_ADDR, 5)]);
    assert!(i.neighbor_list[0].lsa_retransmission_list.is_empty());
    assert!(i.neighbor_list[1].lsa_retransmission_list.is_empty());
    let mut older = router_lsa(5, 1);
    let mut oh = *older.get_hdr();
    oh.age = 9;
    older.set_hdr(oh);
    let (actions, out) = i.handle_lsa(PEER, &older, Some(&lsa), false, &c);
    assert!(out.reply && !out.accept);
    match &actions[..] {
        [Action::Send(dst, OSPFPacket::LinkStateUpdate(p))] => {
            assert_eq!(*dst, PEER_ADDR);
            assert_eq!(p.lsas[0].get_hdr().sequence_number, 2);
        }
        _ => panic!("the sending back of the copy was expected"),
    }
}

#[test]
fn lsa_supersession_in_either_order() {
    let first = router_lsa(0x03030303, -0x7FFF_FFFE);
    let second = router_lsa(0x03030303, -0x7FFF_FFFD);
    assert_ne!(first.get_hdr().checksum, second.get_hdr().checksum);
    for order in [[&first, &second], [&second, &first]] {
        let mut i = interface(InterfaceType::Broadcast);
        i.neighbor_list.push(neighbor(PEER, PEER_ADDR, NbrState::Full));
        let mut db = LinkStateDatabase::from(config(ME), vec![InterfaceAddr { addr: ADDR, mask: MASK }]);
        for lsa in order {
            let lsu = LinkStateUpdate {
                header: Header::new(PacketType::LSU, PEER, 0),
                num_lsa: 1,
                lsas: vec![lsa.clone()],
            };
            i.handle_packet(OSPFPacket::LinkStateUpdate(lsu), PEER_ADDR, &mut db);
            db.lsa_aging(1);
        }
        assert_eq!(db.lsa_list.len(), 1);
        assert_eq!(db.lsa_list[0].get_hdr().sequence_number as u32, 0x8000_0003);
        assert_eq!(db.lsa_list[0].get_hdr().checksum, second.get_hdr().checksum);
        assert_eq!(db.lsa_list[0].encode()[2..], second.encode()[2..]);
    }
}

#[test]
fn a_newer_instance_that_comes_within_the_same_second_is_left_aside() {
    let first = router_lsa(0x03030303, -0x7FFF_FFFE);
    let second = router_lsa(0x03030303, -0x7FFF_FFFD);
    let mut i = interface(InterfaceType::Broadcast);
    i.neighbor_list.push(neighbor(PEER, PEER_ADDR, NbrState::Full));
    let mut db = LinkStateDatabase::from(config(ME), vec![]);
    let lsu = LinkStateUpdate {
        header: Header::new(PacketType::LSU, PEER, 0),
        num_lsa: 2,
        lsas: vec![first.clone(), second.clone()],
    };
    let actions = i.handle_lsu(lsu, &mut db);
    assert_eq!(sends(&actions), vec![(ALL_SPF_ROUTERS, 4), (PEER_ADDR, 5)]);
    assert_eq!(db.lsa_list.len(), 1);
    assert_eq!(db.lsa_list[0].get_hdr().sequence_number as u32, 0x8000_0002);
}

#[test]
fn one_update_with_both_instances_leaves_the_newer_one() {
    let first = router_lsa(0x03030303, -0x7FFF_FFFE);
    let second = router_lsa(0x03030303, -0x7FFF_FFFD);
    let mut i = interface(InterfaceType::Broadcast);
    i.neighbor_list.push(neighbor(PEER, PEER_ADDR, NbrState::Full));
    let mut db = LinkStateDatabase::from(config(ME), vec![]);
    let lsu = LinkStateUpdate {
        header: Header::new(PacketType::LSU, PEER, 0),
        num_lsa: 3,
        lsas: vec![second.clone(), first.clone(), router_lsa(0x04040404, 1)],
    };
    let actions = i.handle_lsu(lsu, &mut db);
    assert_eq!(db.lsa_list.len(), 2);
    assert_eq!(db.lsa_list[0].get_hdr().sequence_number as u32, 0x8000_0003);
    assert_eq!(db.lsa_list[1].get_hdr().link_state_id, 0x04040404);
    assert_eq!(
        sends(&actions),
        vec![(ALL_SPF_ROUTERS, 4), (PEER_ADDR, 5), (ALL_SPF_ROUTERS, 4), (PEER_ADDR, 5)]
    );
}

#[test]
fn a_bad_request_leaves_the_rest_of_the_update_aside() {
    let old = router_lsa(0x03030303, 1);
    let new = router_lsa(0x03030303, 2);
    let mut i = interface(InterfaceType::Broadcast);
    let mut n = neighbor(PEER, PEER_ADDR, NbrState::Loading);
    n.link_state_req_list = vec![*old.get_hdr()];
    i.neighbor_list.push(n);
    let mut db = LinkStateDatabase::from(config(ME), vec![]);
    db.handle_request(DatabaseRequestType::AddOrUpdateLsa(old));
    let lsu = LinkStateUpdate {
        header: Header::new(PacketType::LSU, PEER, 0),
        num_lsa: 2,
        lsas: vec![new, router_lsa(0x04040404, 1)],
    };
    let actions = i.handle_lsu(lsu, &mut db);
    assert!(actions.is_empty());
    assert_eq!(db.lsa_list.len(), 1);
    assert_eq!(db.lsa_list[0].get_hdr().sequence_number, 1);
    assert_eq!(i.neighbor_list[0].state, NbrState::ExStart);
}

#[test]
fn the_timers_send_the_hello_and_end_the_wait() {
    let mut i = interface(InterfaceType::Broadcast);
    let c = config(ME);
    assert!(i.check_timers_given(&c, true, true, &vec![]).is_empty());
    i.handle_event(InterfaceEvent::InterfaceUp);
    let actions = i.check_timers_given(&c, false, false, &vec![]);
    assert!(actions.is_empty());
    assert_eq!(i.state, InterfaceState::Waiting);
    let actions = i.check_timers_given(&c, true, false, &vec![]);
    assert_eq!(sends(&actions), vec![(ALL_SPF_ROUTERS, 1)]);
    assert!(!i.hello_timer.is_expired());
    let actions = i.check_timers_given(&c, false, true, &vec![]);
    assert_eq!(actions.len(), 1);
    assert_eq!(i.state, InterfaceState::DR);
    assert!(!i.wait_timer.is_up());
    i.neighbor_list.push(neighbor(PEER, PEER_ADDR, NbrState::Full));
    i.neighbor_list.push(neighbor(0x03030303, 0x0A000003, NbrState::Full));
    i.neighbor_list[0].inactivity_timer.start();
    i.neighbor_list[1].inactivity_timer.start();
    i.check_timers_given(&c, false, false, &vec![false, true]);
    assert_eq!(i.neighbor_list[0].state, NbrState::Full);
    assert_eq!(i.neighbor_list[1].state, NbrState::Down);
}

#[test]
fn the_clock_driven_checks_start_with_an_immediate_hello() {
    let mut i = interface(InterfaceType::Broadcast);
    let c = config(ME);
    i.handle_event(InterfaceEvent::InterfaceUp);
    let actions = i.check_timers(&c);
    assert_eq!(sends(&actions), vec![(ALL_SPF_ROUTERS, 1)]);
    assert_eq!(i.state, InterfaceState::Waiting);
    assert!(i.check_timers(&c).is_empty());
    let mut n = neighbor(PEER, PEER_ADDR, NbrState::Init);
    n.handle_event(NbrEvent::TwoWayReceived, true);
    i.neighbor_list.push(n);
    let actions = i.send_dbd_if_need(&c);
    assert_eq!(sends(&actions), vec![(PEER_ADDR, 2)]);
    i.neighbor_list[0].state = NbrState::Loading;
    let actions = i.send_lsr_if_need(&c);
    assert_eq!(sends(&actions), vec![(PEER_ADDR, 3)]);
}

#[test]
fn a_packet_is_made_ready_with_length_and_checksum() {
    let mut p = OSPFPacket::Hello(hello_from(ME, 0, 0, vec![PEER]));
    let bytes = prepare(&mut p).unwrap();
    assert_eq!(bytes.len(), 48);
    assert_eq!(p.get_hdr().packet_length, 48);
    assert_eq!(p.encode(), bytes);
    assert!(p.checksum_ok());
    assert_eq!(SENDER_BUFFER_SIZE, 200);
    assert_eq!(IPV4_HEADER_SIZE, 20);
    let mut big = OSPFPacket::Hello(hello_from(ME, 0, 0, vec![PEER; 34]));
    assert_eq!(prepare(&mut big).unwrap().len(), 180);
    let mut too_big = OSPFPacket::Hello(hello_from(ME, 0, 0, vec![PEER; 35]));
    assert!(prepare(&mut too_big).is_none());
    assert_eq!(too_big.get_hdr().packet_length, 0);
    assert_ne!(SenderResponse::PacketSent, SenderResponse::Failed);
}
