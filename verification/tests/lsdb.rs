use ospf_core::config::{
    Config, INIT_SEQ_NUM_LSA, LS_INFINITY, LS_REFRESH_TIME, MAX_AGE, MAX_AGE_DIFF,
    MAX_SEQ_NUM_LSA, MIN_LS_ARRIVAL, MIN_LS_INTERVAL,
};
use ospf_core::database::{
    following_seq, DatabaseRequestType, DatabaseResponse, InterfaceAddr, LinkStateDatabase, LsaKey,
};
use ospf_core::flooding::LsuOutcome;
use ospf_core::lsa::{
    Lsa, LsaAsexternal, LsaCmpResult, LsaHeader, LsaNetwork, LsaRouter, LsaRouterLink, LsaSum,
};
use ospf_core::neighbor::{NbrState, Neighbor};

const ME: u32 = 0x01010101;

fn config() -> Config {
    Config { router_id: ME, ..Config::new() }
}

fn database() -> LinkStateDatabase {
    LinkStateDatabase::from(config(), vec![InterfaceAddr { addr: 0x0A000001, mask: 0xFFFFFF00 }])
}

fn header(ls_type: u8, id: u32, adv: u32, seq: i32) -> LsaHeader {
    LsaHeader {
        age: 0,
        options: 2,
        ls_type,
        link_state_id: id,
        advertising_router: adv,
        sequence_number: seq,
        checksum: 0,
        length: 0,
    }
}

fn link(link_id: u32, link_data: u32, link_type: u8, metric: u16) -> LsaRouterLink {
    LsaRouterLink { link_id, link_data, link_type, tos_num: 0, metric, tos_list: vec![] }
}

fn router(id: u32, seq: i32, links: Vec<LsaRouterLink>) -> Lsa {
    let mut lsa = Lsa::LsaRouter(LsaRouter {
        header: header(1, id, id, seq),
        flags: 0,
        num_links: links.len() as u16,
        links,
    });
    lsa.set_checksum_length();
    lsa
}

fn network(id: u32, adv: u32, mask: u32, attached: Vec<u32>) -> Lsa {
    let mut lsa = Lsa::LsaNetwork(LsaNetwork {
        header: header(2, id, adv, 1),
        network_mask: mask,
        attached_routers: attached,
    });
    lsa.set_checksum_length();
    lsa
}

fn summary(id: u32, adv: u32, mask: u32, metric: u32) -> Lsa {
    let mut lsa =
        Lsa::LsaSumnet(LsaSum { header: header(3, id, adv, 1), network_mask: mask, metric });
    lsa.set_checksum_length();
    lsa
}

fn add(db: &mut LinkStateDatabase, lsa: Lsa) {
    assert!(matches!(
        db.handle_request(DatabaseRequestType::AddOrUpdateLsa(lsa)),
        DatabaseResponse::UpdateDone
    ));
}

fn with_age(h: LsaHeader, age: u16) -> LsaHeader {
    LsaHeader { age, ..h }
}

#[test]
fn the_constants_have_their_values() {
    assert_eq!(LS_REFRESH_TIME, 1800);
    assert_eq!(MIN_LS_INTERVAL, 5);
    assert_eq!(MIN_LS_ARRIVAL, 1);
    assert_eq!(MAX_AGE, 3600);
    assert_eq!(MAX_AGE_DIFF, 900);
    assert_eq!(LS_INFINITY, 0xFFFFFF);
    assert_eq!(INIT_SEQ_NUM_LSA as u32, 0x8000_0001);
    assert_eq!(MAX_SEQ_NUM_LSA, 0x7FFF_FFFF);
}

#[test]
fn the_initial_configuration_has_its_values() {
    let c = Config::new();
    assert_eq!(c.hello_interval, 10);
    assert_eq!(c.dead_interval, 40);
    assert_eq!(c.inf_transit_delay, 1);
    assert_eq!(c.rxmt_interval, 5);
    assert_eq!(c.router_id, 3232240450);
    assert_eq!(c.area_id, 0);
    assert_eq!(c.network_mask, 0xFFFFF000);
    assert_eq!(c.router_priority, 1);
    assert_eq!(c.router_dead_interval, 40);
    assert_eq!(c.default_mtu, 1500);
    assert_eq!(c.options, 2);
}

#[test]
fn the_higher_sequence_number_is_newer() {
    let a = header(1, 5, 5, -0x7FFF_FFFE);
    let b = header(1, 5, 5, -0x7FFF_FFFD);
    assert_eq!(a.cmp_with(&b), LsaCmpResult::Older);
    assert_eq!(b.cmp_with(&a), LsaCmpResult::Newer);
    assert_eq!(a.cmp_with(&a), LsaCmpResult::Same);
}

#[test]
fn sequence_numbers_are_ordered_as_signed_numbers() {
    let first = header(1, 5, 5, INIT_SEQ_NUM_LSA);
    let zero = header(1, 5, 5, 0);
    let last = header(1, 5, 5, MAX_SEQ_NUM_LSA);
    assert_eq!(first.cmp_with(&zero), LsaCmpResult::Older);
    assert_eq!(zero.cmp_with(&last), LsaCmpResult::Older);
    assert_eq!(last.cmp_with(&first), LsaCmpResult::Newer);
}

#[test]
fn with_equal_sequence_numbers_the_higher_checksum_is_newer() {
    let a = LsaHeader { checksum: 10, age: 3000, ..header(1, 5, 5, 1) };
    let b = LsaHeader { checksum: 11, age: 0, ..header(1, 5, 5, 1) };
    assert_eq!(a.cmp_with(&b), LsaCmpResult::Older);
    assert_eq!(b.cmp_with(&a), LsaCmpResult::Newer);
}

#[test]
fn the_instance_at_the_maximum_age_is_newer() {
    let h = header(1, 5, 5, 1);
    assert_eq!(with_age(h, 3600).cmp_with(&with_age(h, 3599)), LsaCmpResult::Newer);
    assert_eq!(with_age(h, 10).cmp_with(&with_age(h, 3600)), LsaCmpResult::Older);
    assert_eq!(with_age(h, 3600).cmp_with(&with_age(h, 3600)), LsaCmpResult::Same);
}

#[test]
fn ages_far_apart_make_the_younger_instance_newer() {
    let h = header(1, 5, 5, 1);
    assert_eq!(with_age(h, 100).cmp_with(&with_age(h, 1001)), LsaCmpResult::Newer);
    assert_eq!(with_age(h, 1001).cmp_with(&with_age(h, 100)), LsaCmpResult::Older);
    assert_eq!(with_age(h, 100).cmp_with(&with_age(h, 1000)), LsaCmpResult::Same);
    assert_eq!(with_age(h, 1000).cmp_with(&with_age(h, 100)), LsaCmpResult::Same);
    assert_eq!(with_age(h, 0).cmp_with(&with_age(h, 900)), LsaCmpResult::Same);
    assert_eq!(with_age(h, 0).cmp_with(&with_age(h, 901)), LsaCmpResult::Newer);
}

#[test]
fn newer_one_way_is_older_the_other_way() {
    let mut headers = Vec::new();
    for seq in [1, 2] {
        for checksum in [5u16, 6] {
            for age in [0u16, 500, 1000, 2500, 3600] {
                headers.push(LsaHeader { checksum, age, ..header(1, 5, 5, seq) });
            }
        }
    }
    for a in &headers {
        assert_eq!(a.cmp_with(a), LsaCmpResult::Same);
        for b in &headers {
            let ab = a.cmp_with(b);
            let ba = b.cmp_with(a);
            assert_eq!(ab == LsaCmpResult::Newer, ba == LsaCmpResult::Older);
            assert_eq!(ab == LsaCmpResult::Same, ba == LsaCmpResult::Same);
        }
    }
}

#[test]
fn lsas_are_compared_by_their_headers() {
    let a = router(5, 1, vec![]);
    let b = router(5, 2, vec![link(1, 2, 3, 4)]);
    assert_eq!(a.cmp_with(&b), LsaCmpResult::Older);
    assert_eq!(b.cmp_with(&a), LsaCmpResult::Newer);
    assert!(a.same_ids(b.get_hdr()));
    assert!(!a.same_ids(network(5, 5, 0, vec![]).get_hdr()));
    assert!(!a.same_ids(router(6, 1, vec![]).get_hdr()));
    assert!(a.get_hdr().same_ids(b.get_hdr()));
    assert!(!header(1, 5, 5, 1).same_ids(&header(1, 5, 6, 1)));
}

#[test]
fn a_new_database_is_empty_and_starts_at_the_first_sequence_number() {
    let db = database();
    assert!(db.lsa_list.is_empty());
    assert!(db.each_int_link.is_empty());
    assert_eq!(db.cur_lsa_seq_num, INIT_SEQ_NUM_LSA);
    assert_eq!(db.clock, 0);
    assert!(db.installed_at.is_empty() && db.pending.is_empty());
    assert_eq!(db.global_config.router_id, ME);
    assert_eq!(db.int_list, vec![InterfaceAddr { addr: 0x0A000001, mask: 0xFFFFFF00 }]);
    assert!(db.route_table.entries.is_empty());
}

#[test]
fn the_configuration_can_be_asked_for_and_changed() {
    let mut db = database();
    match db.handle_request(DatabaseRequestType::QueryConfig) {
        DatabaseResponse::Config(c) => assert_eq!(c.router_id, ME),
        _ => panic!("the configuration was expected"),
    }
    let changed = Config { router_id: 9, ..config() };
    assert!(matches!(
        db.handle_request(DatabaseRequestType::ChangeConfig(changed)),
        DatabaseResponse::UpdateDone
    ));
    match db.handle_request(DatabaseRequestType::QueryConfig) {
        DatabaseResponse::Config(c) => assert_eq!(c.router_id, 9),
        _ => panic!("the configuration was expected"),
    }
}

#[test]
fn an_installed_lsa_takes_the_place_of_the_one_with_its_identity() {
    let mut db = database();
    add(&mut db, router(5, 1, vec![]));
    add(&mut db, router(6, 1, vec![]));
    add(&mut db, network(5, 5, 0xFFFFFF00, vec![5, 6]));
    assert_eq!(db.lsa_list.len(), 3);
    add(&mut db, router(5, 2, vec![link(1, 2, 3, 4)]));
    assert_eq!(db.lsa_list.len(), 3);
    assert_eq!(db.lsa_list[0].get_hdr().sequence_number, 2);
    assert_eq!(db.lsa_list[1].get_hdr().link_state_id, 6);
    assert_eq!(db.lsa_list[2].get_hdr().ls_type, 2);
    for i in 0..3 {
        for j in 0..3 {
            assert_eq!(db.lsa_list[i].same_ids(db.lsa_list[j].get_hdr()), i == j);
        }
    }
}

#[test]
fn an_lsa_that_does_not_fit_the_length_field_is_refused() {
    let mut db = database();
    let links: Vec<LsaRouterLink> = (0..5460).map(|i| link(i, 0, 3, 1)).collect();
    let mut big = Lsa::LsaRouter(LsaRouter {
        header: header(1, 5, 5, 1),
        flags: 0,
        num_links: 5460,
        links,
    });
    assert_eq!(big.encode().len(), 65544);
    assert!(matches!(
        db.handle_request(DatabaseRequestType::AddOrUpdateLsa(big.clone())),
        DatabaseResponse::Refused
    ));
    assert!(db.lsa_list.is_empty());
    match &mut big {
        Lsa::LsaRouter(r) => {
            r.links.pop();
            r.num_links = 5459;
        }
        _ => unreachable!(),
    }
    assert_eq!(big.encode().len(), 65532);
    big.set_checksum_length();
    add(&mut db, big);
    assert_eq!(db.lsa_list.len(), 1);
}

#[test]
fn lsas_are_found_by_header_and_by_ids() {
    let mut db = database();
    add(&mut db, router(5, 1, vec![]));
    add(&mut db, network(5, 6, 0xFFFFFF00, vec![5, 6]));
    add(&mut db, router(6, 1, vec![]));
    match db.handle_request(DatabaseRequestType::QueryLsaByHdr(header(2, 5, 6, 99))) {
        DatabaseResponse::Lsa(l) => assert_eq!(l.get_hdr().ls_type, 2),
        _ => panic!("an advertisement was expected"),
    }
    assert!(matches!(
        db.handle_request(DatabaseRequestType::QueryLsaByHdr(header(2, 5, 5, 1))),
        DatabaseResponse::NotFound
    ));
    match db.handle_request(DatabaseRequestType::QueryLsaByLSID(5)) {
        DatabaseResponse::Lsa(l) => assert_eq!(l.get_hdr().ls_type, 1),
        _ => panic!("an advertisement was expected"),
    }
    assert!(matches!(
        db.handle_request(DatabaseRequestType::QueryLsaByLSID(7)),
        DatabaseResponse::NotFound
    ));
    match db.handle_request(DatabaseRequestType::QueryLsaByLSIDAdvRouter(5, 6)) {
        DatabaseResponse::Lsa(l) => assert_eq!(l.get_hdr().ls_type, 2),
        _ => panic!("an advertisement was expected"),
    }
    assert!(matches!(
        db.handle_request(DatabaseRequestType::QueryLsaByLSIDAdvRouter(6, 5)),
        DatabaseResponse::NotFound
    ));
    assert_eq!(db.find(&LsaKey::Type(2)), Some(1));
    assert_eq!(db.find(&LsaKey::Network(5)), Some(1));
    assert_eq!(db.find(&LsaKey::Network(6)), None);
    assert_eq!(db.get_network_lsa(5).unwrap().attached_routers, vec![5, 6]);
    assert!(db.get_network_lsa(6).is_none());
}

#[test]
fn lists_of_lsas_come_in_the_order_of_the_database() {
    let mut db = database();
    add(&mut db, router(5, 1, vec![]));
    add(&mut db, network(5, 6, 0xFFFFFF00, vec![5, 6]));
    add(&mut db, router(6, 1, vec![]));
    let ids = |resp: DatabaseResponse| -> Vec<(u8, u32)> {
        match resp {
            DatabaseResponse::LsaList(l) => {
                l.iter().map(|x| (x.get_hdr().ls_type, x.get_hdr().link_state_id)).collect()
            }
            _ => panic!("a list was expected"),
        }
    };
    assert_eq!(ids(db.handle_request(DatabaseRequestType::QueryAllLsa)), vec![(1, 5), (2, 5), (1, 6)]);
    assert_eq!(
        ids(db.handle_request(DatabaseRequestType::QueryAllLsaByType(1))),
        vec![(1, 5), (1, 6)]
    );
    assert_eq!(ids(db.handle_request(DatabaseRequestType::QueryAllLsaByType(4))), vec![]);
    assert_eq!(
        ids(db.handle_request(DatabaseRequestType::QueryMultiLsa(vec![(6, 6), (5, 6), (9, 9)]))),
        vec![(2, 5), (1, 6)]
    );
    assert_eq!(
        ids(db.handle_request(DatabaseRequestType::QueryMultiLsa(vec![(5, 5), (5, 5)]))),
        vec![(1, 5), (1, 5)]
    );
    assert_eq!(ids(db.handle_request(DatabaseRequestType::QueryMultiLsa(vec![]))), vec![]);
}

#[test]
fn an_lsa_is_removed_by_its_exact_header() {
    let mut db = database();
    let lsa = router(5, 1, vec![]);
    let h = *lsa.get_hdr();
    add(&mut db, lsa);
    add(&mut db, router(6, 1, vec![]));
    assert!(matches!(
        db.handle_request(DatabaseRequestType::RemoveLsa(with_age(h, 1))),
        DatabaseResponse::NotFound
    ));
    assert_eq!(db.lsa_list.len(), 2);
    assert!(matches!(
        db.handle_request(DatabaseRequestType::RemoveLsa(h)),
        DatabaseResponse::UpdateDone
    ));
    assert_eq!(db.lsa_list.len(), 1);
    assert_eq!(db.lsa_list[0].get_hdr().link_state_id, 6);
}

#[test]
fn the_router_lsa_is_originated_with_the_next_sequence_number() {
    let mut db = database();
    let first = match db.handle_request(DatabaseRequestType::GenRouterLsa(
        link(0x0A000000, 0xFFFFFF00, 3, 1),
        0x0A000001,
    )) {
        DatabaseResponse::Lsa(l) => l,
        _ => panic!("an advertisement was expected"),
    };
    let h = *first.get_hdr();
    assert_eq!(h.age, 0);
    assert_eq!(h.options, 2);
    assert_eq!(h.ls_type, 1);
    assert_eq!(h.link_state_id, ME);
    assert_eq!(h.advertising_router, ME);
    assert_eq!(h.sequence_number as u32, 0x8000_0002);
    assert_eq!(h.length, 36);
    assert!(first.checksum_ok());
    assert_eq!(db.cur_lsa_seq_num as u32, 0x8000_0002);
    assert_eq!(db.lsa_list.len(), 1);
    assert_eq!(db.lsa_list[0].encode(), first.encode());

    assert!(db.lsa_aging(5).is_empty());
    let second = match db.handle_request(DatabaseRequestType::GenRouterLsa(
        link(0x0A000100, 0xFFFFFF00, 3, 7),
        0x0A000101,
    )) {
        DatabaseResponse::Lsa(l) => l,
        _ => panic!("an advertisement was expected"),
    };
    assert_eq!(second.get_hdr().sequence_number as u32, 0x8000_0003);
    assert_eq!(db.lsa_list.len(), 1);
    match &second {
        Lsa::LsaRouter(r) => {
            assert_eq!(r.num_links, 2);
            assert_eq!(r.links[0].link_id, 0x0A000000);
            assert_eq!(r.links[1].link_id, 0x0A000100);
            assert_eq!(r.links[1].metric, 7);
        }
        _ => panic!("a router advertisement was expected"),
    }

    assert!(db.lsa_aging(5).is_empty());
    let third = match db.handle_request(DatabaseRequestType::GenRouterLsa(
        link(0x0A000002, 0x0A000001, 2, 1),
        0x0A000001,
    )) {
        DatabaseResponse::Lsa(l) => l,
        _ => panic!("an advertisement was expected"),
    };
    match &third {
        Lsa::LsaRouter(r) => {
            assert_eq!(r.num_links, 2);
            assert_eq!((r.links[0].link_id, r.links[0].link_type), (0x0A000002, 2));
            assert_eq!(r.links[1].link_id, 0x0A000100);
        }
        _ => panic!("a router advertisement was expected"),
    }
    assert_eq!(db.each_int_link.len(), 2);
    assert_eq!(db.lsa_list.len(), 1);
}

#[test]
fn the_network_lsa_lists_this_router_and_its_full_neighbors() {
    let mut db = database();
    let lsa = match db.handle_request(DatabaseRequestType::GenNetworkLsa(
        0x0A000001,
        0xFFFFFF00,
        vec![0x02020202, 0x03030303],
    )) {
        DatabaseResponse::Lsa(l) => l,
        _ => panic!("an advertisement was expected"),
    };
    let h = *lsa.get_hdr();
    assert_eq!(h.ls_type, 2);
    assert_eq!(h.link_state_id, 0x0A000001);
    assert_eq!(h.advertising_router, ME);
    assert_eq!(h.sequence_number as u32, 0x8000_0002);
    assert_eq!(h.length, 36);
    assert!(lsa.checksum_ok());
    match &lsa {
        Lsa::LsaNetwork(n) => {
            assert_eq!(n.network_mask, 0xFFFFFF00);
            assert_eq!(n.attached_routers, vec![ME, 0x02020202, 0x03030303]);
        }
        _ => panic!("a network advertisement was expected"),
    }
    assert!(db.lsa_aging(5).is_empty());
    db.handle_request(DatabaseRequestType::GenNetworkLsa(0x0A000001, 0xFFFFFF00, vec![0x02020202]));
    assert_eq!(db.lsa_list.len(), 1);
    assert_eq!(db.lsa_list[0].get_hdr().sequence_number as u32, 0x8000_0003);
}

#[test]
fn after_the_last_sequence_number_comes_the_first() {
    assert_eq!(following_seq(INIT_SEQ_NUM_LSA) as u32, 0x8000_0002);
    assert_eq!(following_seq(-1), 0);
    assert_eq!(following_seq(MAX_SEQ_NUM_LSA - 1), MAX_SEQ_NUM_LSA);
    assert_eq!(following_seq(MAX_SEQ_NUM_LSA), INIT_SEQ_NUM_LSA);
    let mut db = database();
    db.cur_lsa_seq_num = MAX_SEQ_NUM_LSA;
    db.handle_request(DatabaseRequestType::GenRouterLsa(link(1, 2, 3, 4), 5));
    assert_eq!(db.lsa_list[0].get_hdr().sequence_number, INIT_SEQ_NUM_LSA);
}

#[test]
fn lsas_grow_older_and_leave_at_the_maximum_age() {
    let mut db = database();
    let mut young = router(5, 1, vec![]);
    let mut old = router(6, 1, vec![]);
    let mut h = *old.get_hdr();
    h.age = 3500;
    old.set_hdr(h);
    let mut h = *young.get_hdr();
    h.age = 10;
    young.set_hdr(h);
    add(&mut db, young);
    add(&mut db, old);
    let fresh = db.lsa_aging(99);
    assert!(fresh.is_empty());
    assert_eq!(db.lsa_list.len(), 2);
    assert_eq!(db.lsa_list[0].get_hdr().age, 109);
    assert_eq!(db.lsa_list[1].get_hdr().age, 3599);
    assert!(db.lsa_list[0].checksum_ok());
    let fresh = db.lsa_aging(1);
    assert!(fresh.is_empty());
    assert_eq!(db.lsa_list.len(), 1);
    assert_eq!(db.lsa_list[0].get_hdr().link_state_id, 5);
    assert_eq!(db.lsa_list[0].get_hdr().age, 110);
    db.lsa_aging(u64::MAX);
    assert!(db.lsa_list.is_empty());
}

#[test]
fn this_routers_own_lsa_is_originated_anew_at_the_refresh_age() {
    let mut db = database();
    db.handle_request(DatabaseRequestType::GenRouterLsa(link(0x0A000000, 0xFFFFFF00, 3, 1), 1));
    assert!(db.lsa_aging(1799).is_empty());
    assert_eq!(db.lsa_list[0].get_hdr().age, 1799);
    assert_eq!(db.lsa_list[0].get_hdr().sequence_number as u32, 0x8000_0002);
    let fresh = db.lsa_aging(1);
    assert_eq!(fresh.len(), 1);
    assert_eq!(fresh[0].get_hdr().age, 0);
    assert_eq!(fresh[0].get_hdr().sequence_number as u32, 0x8000_0003);
    assert!(fresh[0].checksum_ok());
    assert_eq!(db.lsa_list.len(), 1);
    assert_eq!(db.lsa_list[0].encode(), fresh[0].encode());
    assert_eq!(db.cur_lsa_seq_num as u32, 0x8000_0003);
}

#[test]
fn a_self_originated_lsa_at_the_maximum_age_is_flushed_and_originated_anew() {
    let mut db = database();
    let mut own = router(ME, -0x7FFF_FFFE, vec![link(0x0A000000, 0xFFFFFF00, 3, 1)]);
    let mut h = *own.get_hdr();
    h.age = 3600;
    own.set_hdr(h);
    add(&mut db, own);
    db.cur_lsa_seq_num = -0x7FFF_FFFE;
    let fresh = db.lsa_aging(0);
    assert_eq!(fresh.len(), 1);
    assert_eq!(fresh[0].get_hdr().age, 0);
    assert_eq!(fresh[0].get_hdr().sequence_number as u32, 0x8000_0003);
    assert_eq!(db.lsa_list.len(), 1);
    assert_eq!(db.lsa_list[0].get_hdr().age, 0);
    assert_eq!(db.lsa_list[0].get_hdr().sequence_number as u32, 0x8000_0003);
    assert!(db.lsa_list[0].checksum_ok());
}

fn neighbor() -> Neighbor {
    let mut n = Neighbor::default();
    n.state = NbrState::Full;
    n.nbr_id = 0x02020202;
    n.nbr_ip = 0x0A000002;
    n
}

const ACCEPT: LsuOutcome = LsuOutcome { ack: true, reply: false, accept: true, abort: false };
const ACK: LsuOutcome = LsuOutcome { ack: true, reply: false, accept: false, abort: false };
const DROP: LsuOutcome = LsuOutcome { ack: false, reply: false, accept: false, abort: false };
const REPLY: LsuOutcome = LsuOutcome { ack: false, reply: true, accept: false, abort: false };
const ABORT: LsuOutcome = LsuOutcome { ack: false, reply: false, accept: false, abort: true };

#[test]
fn an_lsa_that_the_database_does_not_hold_is_accepted() {
    let mut n = neighbor();
    n.state = NbrState::Loading;
    let lsa = router(3, 1, vec![]);
    n.link_state_req_list = vec![*lsa.get_hdr(), header(1, 4, 4, 1)];
    n.lsa_retransmission_list = vec![*lsa.get_hdr()];
    assert_eq!(n.handle_lsa(&lsa, None, false, true), ACCEPT);
    assert_eq!(n.link_state_req_list, vec![header(1, 4, 4, 1)]);
    assert!(n.lsa_retransmission_list.is_empty());
    assert_eq!(n.state, NbrState::Loading);
    assert_eq!(n.handle_lsa(&router(4, 1, vec![]), None, false, true), ACCEPT);
    assert!(n.link_state_req_list.is_empty());
    assert_eq!(n.state, NbrState::Full);
}

#[test]
fn an_lsa_of_unknown_type_or_with_a_wrong_checksum_is_dropped() {
    let mut n = neighbor();
    let mut lsa = router(3, 1, vec![]);
    let mut h = *lsa.get_hdr();
    h.checksum ^= 1;
    lsa.set_hdr(h);
    assert_eq!(n.handle_lsa(&lsa, None, false, true), DROP);
    for t in [0u8, 6, 200] {
        let mut lsa = Lsa::LsaAsexternal(LsaAsexternal {
            header: header(t, 3, 3, 1),
            network_mask: 0,
            metric: 0,
            forwarding_address: 0,
            external_route_tag: 0,
        });
        lsa.set_checksum_length();
        assert!(lsa.checksum_ok());
        assert_eq!(n.handle_lsa(&lsa, None, false, true), DROP);
    }
}

#[test]
fn an_lsa_at_the_maximum_age_that_is_not_held_is_acknowledged_and_dropped() {
    let mut n = neighbor();
    let mut lsa = router(3, 1, vec![]);
    let mut h = *lsa.get_hdr();
    h.age = 3600;
    lsa.set_hdr(h);
    assert_eq!(n.handle_lsa(&lsa, None, false, true), ACK);
}

#[test]
fn a_newer_lsa_is_accepted_and_an_older_one_answered_with_the_copy() {
    let mut n = neighbor();
    let old = router(3, 1, vec![]);
    let new = router(3, 2, vec![]);
    assert_eq!(n.handle_lsa(&new, Some(&old), false, true), ACCEPT);
    assert_eq!(n.handle_lsa(&old, Some(&new), false, true), DROP);
    let mut aged = router(3, 1, vec![]);
    let mut h = *aged.get_hdr();
    h.age = 5;
    aged.set_hdr(h);
    assert_eq!(n.handle_lsa(&aged, Some(&new), false, true), REPLY);
}

#[test]
fn the_same_lsa_is_acknowledged_and_leaves_the_retransmission_list() {
    let mut n = neighbor();
    let lsa = router(3, 1, vec![]);
    n.lsa_retransmission_list = vec![header(1, 4, 4, 1), *lsa.get_hdr()];
    n.link_state_req_list = vec![*lsa.get_hdr()];
    assert_eq!(n.handle_lsa(&lsa, Some(&lsa), false, true), ACK);
    assert_eq!(n.lsa_retransmission_list, vec![header(1, 4, 4, 1)]);
    assert_eq!(n.link_state_req_list, vec![*lsa.get_hdr()]);
}

#[test]
fn a_newer_lsa_that_is_on_the_request_list_is_a_bad_request() {
    let mut n = neighbor();
    let old = router(3, 1, vec![]);
    let new = router(3, 2, vec![]);
    n.link_state_req_list = vec![*old.get_hdr()];
    n.dd_seq_number = 4;
    assert_eq!(n.handle_lsa(&new, Some(&old), false, true), ABORT);
    assert_eq!(n.state, NbrState::ExStart);
    assert_eq!(n.dd_seq_number, 5);
    assert!(n.link_state_req_list.is_empty());
}

#[test]
fn a_newer_lsa_at_the_maximum_age_with_the_last_sequence_number_is_dropped() {
    let mut n = neighbor();
    let old = router(3, 1, vec![]);
    let mut last = router(3, MAX_SEQ_NUM_LSA, vec![]);
    let mut h = *last.get_hdr();
    h.age = 3600;
    last.set_hdr(h);
    assert_eq!(n.handle_lsa(&last, Some(&old), false, true), DROP);
    h.age = 3599;
    last.set_hdr(h);
    assert_eq!(n.handle_lsa(&last, Some(&old), false, true), ACCEPT);
}

#[test]
fn a_newer_lsa_is_dropped_while_the_copy_is_recent() {
    let mut n = neighbor();
    let old = router(3, 1, vec![]);
    let new = router(3, 2, vec![]);
    n.lsa_retransmission_list = vec![*old.get_hdr()];
    assert_eq!(n.handle_lsa(&new, Some(&old), true, true), DROP);
    assert_eq!(n.lsa_retransmission_list.len(), 1);
    assert_eq!(n.handle_lsa(&new, None, true, true), ACCEPT);
    assert_eq!(n.handle_lsa(&old, Some(&old), true, true), ACK);
}

#[test]
fn the_database_says_whether_a_copy_is_recent() {
    let mut db = database();
    let lsa = router(5, 1, vec![]);
    let h = *lsa.get_hdr();
    let recent = |db: &mut LinkStateDatabase, h: LsaHeader| -> bool {
        match db.handle_request(DatabaseRequestType::QueryRecent(h)) {
            DatabaseResponse::Recent(r) => r,
            _ => panic!("an answer on recency was expected"),
        }
    };
    assert!(!recent(&mut db, h));
    add(&mut db, lsa);
    assert_eq!(db.installed_at, vec![0]);
    assert!(recent(&mut db, h));
    assert!(recent(&mut db, header(1, 5, 5, 77)));
    assert!(!recent(&mut db, header(1, 6, 6, 1)));
    db.lsa_aging(1);
    assert_eq!(db.clock, 1);
    assert!(!recent(&mut db, h));
    add(&mut db, router(5, 2, vec![]));
    assert_eq!(db.installed_at, vec![1]);
    assert!(recent(&mut db, h));
    assert!(db.held_less_than(&h, 1));
    db.lsa_aging(4);
    assert!(!db.held_less_than(&h, 4));
    assert!(db.held_less_than(&h, 5));
}

#[test]
fn an_origination_within_the_minimum_interval_is_put_off() {
    let mut db = database();
    let first = link(0x0A000000, 0xFFFFFF00, 3, 1);
    let second = link(0x0A000100, 0xFFFFFF00, 3, 7);
    let third = link(0x0A000100, 0xFFFFFF00, 2, 9);
    assert!(matches!(
        db.handle_request(DatabaseRequestType::GenRouterLsa(first, 0x0A000001)),
        DatabaseResponse::Lsa(_)
    ));
    assert!(matches!(
        db.handle_request(DatabaseRequestType::GenRouterLsa(second, 0x0A000101)),
        DatabaseResponse::UpdateDone
    ));
    assert!(matches!(
        db.handle_request(DatabaseRequestType::GenRouterLsa(third, 0x0A000101)),
        DatabaseResponse::UpdateDone
    ));
    assert_eq!(db.each_int_link.len(), 2);
    assert_eq!(db.pending.len(), 1);
    assert_eq!(db.cur_lsa_seq_num as u32, 0x8000_0002);
    match &db.lsa_list[0] {
        Lsa::LsaRouter(r) => assert_eq!(r.links.len(), 1),
        _ => panic!("a router advertisement was expected"),
    }
    assert!(db.lsa_aging(4).is_empty());
    assert_eq!(db.pending.len(), 1);
    let fresh = db.lsa_aging(1);
    assert_eq!(fresh.len(), 1);
    assert!(db.pending.is_empty());
    assert_eq!(fresh[0].get_hdr().sequence_number as u32, 0x8000_0003);
    assert_eq!(fresh[0].get_hdr().age, 0);
    assert!(fresh[0].checksum_ok());
    match &fresh[0] {
        Lsa::LsaRouter(r) => {
            assert_eq!(r.links.len(), 2);
            assert_eq!((r.links[1].link_type, r.links[1].metric), (2, 9));
        }
        _ => panic!("a router advertisement was expected"),
    }
    assert_eq!(db.lsa_list.len(), 1);
    assert_eq!(db.lsa_list[0].encode(), fresh[0].encode());
    assert_eq!(db.installed_at, vec![5]);
}

#[test]
fn originations_of_different_advertisements_wait_side_by_side() {
    let mut db = database();
    let net = |nbrs: Vec<u32>, addr: u32| DatabaseRequestType::GenNetworkLsa(addr, 0xFFFFFF00, nbrs);
    assert!(matches!(db.handle_request(net(vec![2], 0x0A000001)), DatabaseResponse::Lsa(_)));
    assert!(matches!(db.handle_request(net(vec![3], 0x0A000101)), DatabaseResponse::Lsa(_)));
    assert!(matches!(db.handle_request(net(vec![2, 4], 0x0A000001)), DatabaseResponse::UpdateDone));
    assert!(matches!(db.handle_request(net(vec![3, 5], 0x0A000101)), DatabaseResponse::UpdateDone));
    assert!(matches!(db.handle_request(net(vec![2, 6], 0x0A000001)), DatabaseResponse::UpdateDone));
    assert_eq!(db.pending.len(), 2);
    let fresh = db.lsa_aging(5);
    assert_eq!(fresh.len(), 2);
    assert!(db.pending.is_empty());
    assert_eq!(db.lsa_list.len(), 2);
    match db.get_network_lsa(0x0A000001) {
        Some(n) => assert_eq!(n.attached_routers, vec![ME, 2, 6]),
        None => panic!("a network advertisement was expected"),
    }
    match db.get_network_lsa(0x0A000101) {
        Some(n) => assert_eq!(n.attached_routers, vec![ME, 3, 5]),
        None => panic!("a network advertisement was expected"),
    }
}

#[test]
fn summaries_are_kept_but_add_no_router_to_the_graph() {
    let mut db = database();
    add(&mut db, summary(0xC0A80000, 9, 0xFFFF0000, 3));
    assert_eq!(db.lsa_list.len(), 1);
    assert!(db.route_table.nodes.is_empty());
    assert!(db.route_table.entries.is_empty());
}

#[test]
fn an_lsa_in_the_way_of_the_next_sequence_number_is_flushed_before_the_origination() {
    let mut db = database();
    let first = link(0x0A000000, 0xFFFFFF00, 3, 1);
    let second = link(0x0A000100, 0xFFFFFF00, 3, 7);
    db.handle_request(DatabaseRequestType::GenRouterLsa(first, 0x0A000001));
    assert_eq!(db.lsa_list[0].get_hdr().sequence_number as u32, 0x8000_0002);
    assert_eq!(db.route_table.nodes.len(), 2);
    db.cur_lsa_seq_num = MAX_SEQ_NUM_LSA;
    assert!(db.lsa_aging(5).is_empty());
    let out = match db.handle_request(DatabaseRequestType::GenRouterLsa(second, 0x0A000101)) {
        DatabaseResponse::Lsa(l) => l,
        _ => panic!("an advertisement was expected"),
    };
    assert_eq!(out.get_hdr().age, 3600);
    assert_eq!(out.get_hdr().sequence_number as u32, 0x8000_0002);
    assert!(out.checksum_ok());
    match &out {
        Lsa::LsaRouter(r) => assert_eq!(r.links.len(), 1),
        _ => panic!("a router advertisement was expected"),
    }
    assert!(db.lsa_list.is_empty());
    assert!(db.installed_at.is_empty());
    assert!(db.route_table.nodes.is_empty());
    assert_eq!(db.pending.len(), 1);
    assert_eq!(db.each_int_link.len(), 2);
    assert_eq!(db.cur_lsa_seq_num, MAX_SEQ_NUM_LSA);

    let fresh = db.lsa_aging(1);
    assert_eq!(fresh.len(), 1);
    assert_eq!(fresh[0].get_hdr().age, 0);
    assert_eq!(fresh[0].get_hdr().sequence_number, INIT_SEQ_NUM_LSA);
    match &fresh[0] {
        Lsa::LsaRouter(r) => assert_eq!(r.links.len(), 2),
        _ => panic!("a router advertisement was expected"),
    }
    assert!(db.pending.is_empty());
    assert_eq!(db.lsa_list.len(), 1);
    assert_eq!(db.lsa_list[0].encode(), fresh[0].encode());
    assert_eq!(db.cur_lsa_seq_num, INIT_SEQ_NUM_LSA);
}

#[test]
fn a_network_lsa_in_the_way_is_flushed_as_well() {
    let mut db = database();
    add(&mut db, network(0x0A000001, ME, 0xFFFFFF00, vec![ME, 7]));
    assert_eq!(db.lsa_list[0].get_hdr().sequence_number, 1);
    assert!(db.lsa_aging(5).is_empty());
    let out = match db.handle_request(DatabaseRequestType::GenNetworkLsa(
        0x0A000001,
        0xFFFFFF00,
        vec![8],
    )) {
        DatabaseResponse::Lsa(l) => l,
        _ => panic!("an advertisement was expected"),
    };
    assert_eq!(out.get_hdr().age, 3600);
    assert_eq!(out.get_hdr().sequence_number, 1);
    assert!(db.lsa_list.is_empty());
    assert_eq!(db.pending.len(), 1);
    let fresh = db.lsa_aging(1);
    assert_eq!(fresh.len(), 1);
    assert_eq!(fresh[0].get_hdr().sequence_number as u32, 0x8000_0002);
    match &fresh[0] {
        Lsa::LsaNetwork(n) => assert_eq!(n.attached_routers, vec![ME, 8]),
        _ => panic!("a network advertisement was expected"),
    }
}

#[test]
fn an_lsa_at_the_maximum_age_is_not_in_the_way() {
    let mut db = database();
    let mut held = router(ME, 7, vec![]);
    let mut h = *held.get_hdr();
    h.age = 3600;
    held.set_hdr(h);
    add(&mut db, held);
    assert!(db.lsa_aging(0).len() == 1);
    let mut db = database();
    let mut held = router(ME, 7, vec![]);
    let mut h = *held.get_hdr();
    h.age = 3600;
    held.set_hdr(h);
    add(&mut db, held);
    db.clock = 5;
    let made = match db.handle_request(DatabaseRequestType::GenRouterLsa(link(1, 2, 3, 4), 5)) {
        DatabaseResponse::Lsa(l) => l,
        _ => panic!("an advertisement was expected"),
    };
    assert_eq!(made.get_hdr().age, 0);
    assert_eq!(made.get_hdr().sequence_number as u32, 0x8000_0002);
    assert_eq!(db.lsa_list.len(), 1);
    assert!(db.pending.is_empty());
}

#[test]
fn at_the_refresh_age_an_lsa_in_the_way_is_flushed_and_then_originated_anew() {
    let mut db = database();
    add(&mut db, router(ME, 9, vec![link(0x0A000000, 0xFFFFFF00, 3, 1)]));
    add(&mut db, router(6, 9, vec![]));
    assert!(db.lsa_aging(1799).is_empty());
    let out = db.lsa_aging(1);
    assert_eq!(out.len(), 1);
    assert_eq!(out[0].get_hdr().age, 3600);
    assert_eq!(out[0].get_hdr().sequence_number, 9);
    assert!(out[0].checksum_ok());
    assert_eq!(db.lsa_list.len(), 2);
    assert_eq!(db.lsa_list[0].get_hdr().age, 3600);
    assert_eq!(db.lsa_list[1].get_hdr().age, 1800);
    assert_eq!(db.cur_lsa_seq_num, INIT_SEQ_NUM_LSA);
    assert!(db.route_table.nodes.iter().all(|n| n.id != ME));

    let fresh = db.lsa_aging(1);
    assert_eq!(fresh.len(), 1);
    assert_eq!(fresh[0].get_hdr().age, 0);
    assert_eq!(fresh[0].get_hdr().sequence_number as u32, 0x8000_0002);
    assert!(fresh[0].checksum_ok());
    assert_eq!(db.lsa_list.len(), 2);
    assert_eq!(db.lsa_list[0].encode(), fresh[0].encode());
    assert!(db.route_table.nodes.iter().any(|n| n.id == ME));
}
