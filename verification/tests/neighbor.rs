use ospf_core::lsa::LsaHeader;
use ospf_core::neighbor::{NbrEvent, NbrState, Neighbor};
use ospf_core::packets::{DBDFlag, DBDescription, Header, Hello, PacketType};
use ospf_core::timer::Timer;

const ALL_STATES: [NbrState; 8] = [
    NbrState::Down,
    NbrState::Attempt,
    NbrState::Init,
    NbrState::TwoWay,
    NbrState::ExStart,
    NbrState::Exchange,
    NbrState::Loading,
    NbrState::Full,
];

fn hdr(id: u32) -> LsaHeader {
    LsaHeader {
        age: 1,
        options: 2,
        ls_type: 1,
        link_state_id: id,
        advertising_router: id,
        sequence_number: 1,
        checksum: 0,
        length: 24,
    }
}

fn neighbor(state: NbrState) -> Neighbor {
    let mut n = Neighbor::default();
    n.state = state;
    n.nbr_id = 0x02020202;
    n.nbr_ip = 0x0A000002;
    n.lsa_retransmission_list = vec![hdr(1)];
    n.db_summary_list = vec![hdr(2)];
    n.link_state_req_list = vec![hdr(3)];
    n
}

fn lists_are_empty(n: &Neighbor) -> bool {
    n.lsa_retransmission_list.is_empty()
        && n.db_summary_list.is_empty()
        && n.link_state_req_list.is_empty()
}

fn lists_are_kept(n: &Neighbor) -> bool {
    n.lsa_retransmission_list == vec![hdr(1)]
        && n.db_summary_list == vec![hdr(2)]
        && n.link_state_req_list == vec![hdr(3)]
}

fn dbd(router_id: u32, flags: u8, seq: u32, hdrs: Vec<LsaHeader>) -> DBDescription {
    DBDescription {
        header: Header::new(PacketType::DBD, router_id, 0),
        interface_mtu: 1500,
        options: 2,
        flags,
        dbd_seq_num: seq,
        lsa_hdrs: hdrs,
    }
}

#[test]
fn states_are_ordered_from_down_to_full() {
    let lower = [true, true, false, false, false, false, false, false];
    let higher = [false, false, false, false, true, true, true, true];
    let two_way = [false, false, false, true, true, true, true, true];
    for i in 0..8 {
        assert_eq!(ALL_STATES[i].lower_than_init(), lower[i]);
        assert_eq!(ALL_STATES[i].higher_than_two_way(), higher[i]);
        assert_eq!(ALL_STATES[i].have_two_way_comm(), two_way[i]);
        for j in 0..8 {
            assert_eq!(
                ALL_STATES[i].two_way_comm_status_changed(ALL_STATES[j]),
                two_way[i] != two_way[j]
            );
        }
    }
}

#[test]
fn a_new_neighbor_is_down_and_holds_what_the_hello_declared() {
    let hello = Hello {
        header: Header::new(PacketType::Hello, 0x02020202, 0),
        network_mask: 0xFFFFFF00,
        hello_interval: 10,
        options: 2,
        router_priority: 7,
        router_dead_interval: 40,
        designated_router: 0x0A000001,
        backup_designated_router: 0x0A000002,
        neighbors: vec![],
    };
    let n = Neighbor::new(hello, 40, 5);
    assert_eq!(n.state, NbrState::Down);
    assert_eq!(n.nbr_pri, 7);
    assert_eq!(n.nbr_ip, 0x02020202);
    assert_eq!(n.nbr_id, 0);
    assert_eq!(n.nbr_options, 2);
    assert_eq!(n.nbr_dr, 0x0A000001);
    assert_eq!(n.nbr_bdr, 0x0A000002);
    assert_eq!(n.inactivity_timer.period(), 40);
    assert_eq!(n.exstart_rxmt_timer.period(), 5);
    assert_eq!(n.mst_exch_timer.period(), 5);
    assert_eq!(n.lsr_rxmt_timer.period(), 5);
    assert!(!n.inactivity_timer.is_up());
    assert!(!n.nbr_is_master);
    assert_eq!(n.dd_seq_number, 0);
    assert!(n.last_rcv_dbd.is_none());
    assert!(n.last_sent_dbd.is_none());
    assert!(lists_are_empty(&n));
}

#[test]
fn start_takes_a_down_neighbor_to_attempt() {
    let mut n = neighbor(NbrState::Down);
    n.handle_event(NbrEvent::Start, true);
    assert_eq!(n.state, NbrState::Attempt);
    assert!(n.inactivity_timer.is_up());
    for s in ALL_STATES.into_iter().skip(1) {
        let mut n = neighbor(s);
        n.handle_event(NbrEvent::Start, true);
        assert_eq!(n.state, s);
        assert!(!n.inactivity_timer.is_up());
    }
}

#[test]
fn a_hello_lifts_the_low_states_to_init_and_restarts_the_inactivity_timer() {
    let after = [
        NbrState::Init,
        NbrState::Init,
        NbrState::Init,
        NbrState::TwoWay,
        NbrState::ExStart,
        NbrState::Exchange,
        NbrState::Loading,
        NbrState::Full,
    ];
    for i in 0..8 {
        let mut n = neighbor(ALL_STATES[i]);
        n.handle_event(NbrEvent::HelloReceived, false);
        assert_eq!(n.state, after[i]);
        assert!(n.inactivity_timer.is_up());
        assert!(lists_are_kept(&n));
    }
}

#[test]
fn one_way_goes_back_to_init_and_clears_the_lists() {
    for s in ALL_STATES {
        let mut n = neighbor(s);
        n.handle_event(NbrEvent::OneWayReceived, true);
        assert_eq!(n.state, NbrState::Init);
        assert!(lists_are_empty(&n));
    }
}

#[test]
fn two_way_forms_the_adjacency_or_stops_at_two_way() {
    for s in [NbrState::Down, NbrState::Attempt, NbrState::Init, NbrState::TwoWay] {
        let mut n = neighbor(s);
        n.dd_seq_number = 41;
        n.handle_event(NbrEvent::TwoWayReceived, true);
        assert_eq!(n.state, NbrState::ExStart);
        assert_eq!(n.dd_seq_number, 42);
        assert!(n.exstart_rxmt_timer.is_up());
        assert!(n.exstart_rxmt_timer.is_expired());
        let mut n = neighbor(s);
        n.handle_event(NbrEvent::TwoWayReceived, false);
        assert_eq!(n.state, NbrState::TwoWay);
        assert_eq!(n.dd_seq_number, 0);
    }
    for s in [NbrState::ExStart, NbrState::Exchange, NbrState::Loading, NbrState::Full] {
        for adjacency in [true, false] {
            let mut n = neighbor(s);
            n.handle_event(NbrEvent::TwoWayReceived, adjacency);
            assert_eq!(n.state, s);
            assert_eq!(n.dd_seq_number, 0);
            assert!(lists_are_kept(&n));
        }
    }
}

#[test]
fn the_sequence_number_starts_over_after_the_highest() {
    let mut n = neighbor(NbrState::Init);
    n.dd_seq_number = u32::MAX;
    n.handle_event(NbrEvent::TwoWayReceived, true);
    assert_eq!(n.dd_seq_number, 0);
}

#[test]
fn negotiation_exchange_and_loading_each_end_in_the_next_state() {
    let mut n = neighbor(NbrState::ExStart);
    n.handle_event(NbrEvent::NegotiationDone, true);
    assert_eq!(n.state, NbrState::Exchange);
    n.handle_event(NbrEvent::ExchangeDone, true);
    assert_eq!(n.state, NbrState::Loading);
    n.handle_event(NbrEvent::LoadingDone, true);
    assert_eq!(n.state, NbrState::Full);
    let mut n = neighbor(NbrState::Exchange);
    n.link_state_req_list.clear();
    n.handle_event(NbrEvent::ExchangeDone, true);
    assert_eq!(n.state, NbrState::Full);
}

#[test]
fn events_that_a_state_has_no_transition_for_change_nothing() {
    for s in ALL_STATES {
        for (event, from) in [
            (NbrEvent::NegotiationDone, NbrState::ExStart),
            (NbrEvent::ExchangeDone, NbrState::Exchange),
            (NbrEvent::LoadingDone, NbrState::Loading),
        ] {
            if s != from {
                let mut n = neighbor(s);
                n.handle_event(event, true);
                assert_eq!(n.state, s);
                assert!(lists_are_kept(&n));
            }
        }
    }
}

#[test]
fn adj_ok_lifts_two_way_or_drops_an_adjacency() {
    let mut n = neighbor(NbrState::TwoWay);
    n.handle_event(NbrEvent::AdjOK, true);
    assert_eq!(n.state, NbrState::ExStart);
    assert_eq!(n.dd_seq_number, 1);
    let mut n = neighbor(NbrState::TwoWay);
    n.handle_event(NbrEvent::AdjOK, false);
    assert_eq!(n.state, NbrState::TwoWay);
    assert!(lists_are_kept(&n));
    for s in [NbrState::ExStart, NbrState::Exchange, NbrState::Loading, NbrState::Full] {
        let mut n = neighbor(s);
        n.handle_event(NbrEvent::AdjOK, true);
        assert_eq!(n.state, s);
        assert!(lists_are_kept(&n));
        let mut n = neighbor(s);
        n.handle_event(NbrEvent::AdjOK, false);
        assert_eq!(n.state, NbrState::TwoWay);
        assert!(lists_are_empty(&n));
    }
    for s in [NbrState::Down, NbrState::Attempt, NbrState::Init] {
        for adjacency in [true, false] {
            let mut n = neighbor(s);
            n.handle_event(NbrEvent::AdjOK, adjacency);
            assert_eq!(n.state, s);
            assert!(lists_are_kept(&n));
        }
    }
}

#[test]
fn a_mismatch_or_a_bad_request_starts_the_exchange_over() {
    for event in [NbrEvent::SeqNumberMismatch, NbrEvent::BadLSReq] {
        for s in ALL_STATES {
            let mut n = neighbor(s);
            n.dd_seq_number = 7;
            n.handle_event(event, true);
            assert_eq!(n.state, NbrState::ExStart);
            assert_eq!(n.dd_seq_number, 8);
            assert!(lists_are_empty(&n));
            assert!(n.exstart_rxmt_timer.is_expired());
        }
    }
}

#[test]
fn a_sequence_number_match_resumes_the_exchange() {
    let mut n = neighbor(NbrState::ExStart);
    n.handle_event(NbrEvent::SeqNumberMatch, true);
    assert_eq!(n.state, NbrState::Exchange);
    assert!(lists_are_kept(&n));
}

#[test]
fn kill_timeout_and_link_down_take_the_neighbor_down() {
    for event in [NbrEvent::KillNbr, NbrEvent::InactivityTimer, NbrEvent::LLDown] {
        for s in ALL_STATES {
            let mut n = neighbor(s);
            n.handle_event(event, true);
            assert_eq!(n.state, NbrState::Down);
            assert!(lists_are_empty(&n));
        }
    }
}

#[test]
fn an_expired_inactivity_timer_takes_the_neighbor_down() {
    let mut n = neighbor(NbrState::Full);
    n.expire_if(true);
    assert_eq!(n.state, NbrState::Full);
    n.inactivity_timer.start();
    n.expire_if(false);
    assert_eq!(n.state, NbrState::Full);
    assert!(n.inactivity_timer.is_up());
    n.expire_if(true);
    assert_eq!(n.state, NbrState::Down);
    assert!(!n.inactivity_timer.is_up());
    assert!(lists_are_empty(&n));
}

#[test]
fn check_timers_goes_by_the_clock() {
    let mut n = neighbor(NbrState::Full);
    n.check_timers();
    assert_eq!(n.state, NbrState::Full);
    n.inactivity_timer = Timer::new(1_000_000);
    n.inactivity_timer.start();
    n.check_timers();
    assert_eq!(n.state, NbrState::Full);
    n.inactivity_timer = Timer::new(1_000_000);
    n.inactivity_timer.start_imm();
    n.check_timers();
    assert_eq!(n.state, NbrState::Down);
    assert!(!n.inactivity_timer.is_up());
}

#[test]
fn the_router_with_the_higher_id_becomes_master() {
    let me = 0x01010101;
    let mut n = neighbor(NbrState::ExStart);
    n.db_summary_list.clear();
    n.link_state_req_list.clear();
    n.lsa_retransmission_list.clear();
    let lsdb = vec![hdr(10), hdr(11), hdr(12)];
    let out = n.handle_dbd(dbd(0x02020202, 7, 500, vec![]), me, 1500, &lsdb, true);
    assert_eq!(n.state, NbrState::Exchange);
    assert!(n.nbr_is_master);
    assert_eq!(n.dd_seq_number, 500);
    assert_eq!(n.nbr_options, 2);
    assert_eq!(n.db_summary_list, lsdb);
    assert_eq!(out, Some((0, 500, lsdb.clone())));
    assert_eq!(n.last_sent_dbd, Some((0, 500, lsdb)));
    assert_eq!(n.last_rcv_dbd.as_ref().unwrap().dbd_seq_num, 500);
}

#[test]
fn the_first_packet_holds_what_the_mtu_allows() {
    let me = 0x01010101;
    let mut n = neighbor(NbrState::ExStart);
    n.db_summary_list.clear();
    let lsdb = vec![hdr(10), hdr(11), hdr(12)];
    let out = n.handle_dbd(dbd(0x02020202, 7, 500, vec![]), me, 140, &lsdb, true);
    assert_eq!(out, Some((DBDFlag::new(false, true, false).to_byte(), 500, vec![hdr(10), hdr(11)])));
    let mut n = neighbor(NbrState::ExStart);
    n.db_summary_list.clear();
    let out = n.handle_dbd(dbd(0x02020202, 7, 500, vec![]), me, 99, &lsdb, true);
    assert_eq!(out, Some((2, 500, vec![])));
}

#[test]
fn a_packet_that_settles_nothing_is_left_aside() {
    let me = 0x03030303;
    let mut n = neighbor(NbrState::ExStart);
    n.dd_seq_number = 9;
    assert_eq!(n.handle_dbd(dbd(0x02020202, 7, 500, vec![]), me, 1500, &vec![], true), None);
    assert_eq!(n.state, NbrState::ExStart);
    assert_eq!(n.dd_seq_number, 9);
    assert_eq!(n.handle_dbd(dbd(0x02020202, 0, 8, vec![]), me, 1500, &vec![], true), None);
    assert_eq!(n.state, NbrState::ExStart);
    assert_eq!(n.handle_dbd(dbd(0x02020202, 1, 9, vec![]), me, 1500, &vec![], true), None);
    assert_eq!(n.state, NbrState::ExStart);
    assert!(lists_are_kept(&n));
}

#[test]
fn the_master_accepts_the_answer_of_the_slave() {
    let me = 0x03030303;
    let mut n = neighbor(NbrState::ExStart);
    n.dd_seq_number = 9;
    n.db_summary_list.clear();
    n.link_state_req_list.clear();
    n.last_sent_dbd = Some((7, 9, vec![]));
    let lsdb = vec![hdr(10)];
    let out = n.handle_dbd(dbd(0x02020202, 0, 9, vec![hdr(10), hdr(20)]), me, 1500, &lsdb, true);
    assert!(!n.nbr_is_master);
    assert_eq!(n.state, NbrState::Exchange);
    assert_eq!(n.dd_seq_number, 10);
    assert_eq!(n.link_state_req_list, vec![hdr(20)]);
    assert_eq!(out, Some((DBDFlag::new(false, false, true).to_byte(), 10, vec![hdr(10)])));
    assert!(n.db_summary_list.is_empty());
    assert!(n.mst_exch_timer.is_up());
    let out = n.handle_dbd(dbd(0x02020202, 0, 10, vec![]), me, 1500, &lsdb, true);
    assert_eq!(out, None);
    assert_eq!(n.dd_seq_number, 11);
    assert_eq!(n.state, NbrState::Loading);
    assert!(!n.mst_exch_timer.is_up());
}

#[test]
fn the_slave_follows_the_master_to_the_end_of_the_exchange() {
    let me = 0x01010101;
    let mut n = neighbor(NbrState::Exchange);
    n.nbr_is_master = true;
    n.nbr_options = 2;
    n.dd_seq_number = 500;
    n.link_state_req_list.clear();
    n.db_summary_list = vec![hdr(10), hdr(11)];
    n.last_sent_dbd = Some((0, 500, vec![hdr(10), hdr(11)]));
    let out = n.handle_dbd(dbd(0x02020202, 1, 501, vec![]), me, 1500, &vec![], true);
    assert_eq!(out, Some((0, 501, vec![])));
    assert_eq!(n.dd_seq_number, 501);
    assert!(n.db_summary_list.is_empty());
    assert_eq!(n.state, NbrState::Full);
}

#[test]
fn the_slave_waits_while_the_master_has_more() {
    let me = 0x01010101;
    let mut n = neighbor(NbrState::Exchange);
    n.nbr_is_master = true;
    n.nbr_options = 2;
    n.dd_seq_number = 500;
    n.db_summary_list.clear();
    n.last_sent_dbd = Some((0, 500, vec![]));
    let out = n.handle_dbd(dbd(0x02020202, 3, 501, vec![hdr(30)]), me, 1500, &vec![], true);
    assert_eq!(out, Some((0, 501, vec![])));
    assert_eq!(n.state, NbrState::Exchange);
    assert_eq!(n.link_state_req_list, vec![hdr(3), hdr(30)]);
}

#[test]
fn a_duplicate_is_answered_by_the_slave_and_dropped_by_the_master() {
    let me = 0x01010101;
    for state in [NbrState::Exchange, NbrState::Loading, NbrState::Full] {
        let mut n = neighbor(state);
        n.nbr_is_master = true;
        n.nbr_options = 2;
        n.dd_seq_number = 500;
        n.last_rcv_dbd = Some(dbd(0x02020202, 1, 500, vec![]));
        n.last_sent_dbd = Some((0, 500, vec![hdr(10)]));
        let out = n.handle_dbd(dbd(0x02020202, 1, 500, vec![]), me, 1500, &vec![], true);
        assert_eq!(out, Some((0, 500, vec![hdr(10)])));
        assert_eq!(n.state, state);
        assert!(lists_are_kept(&n));
        let mut n = neighbor(state);
        n.nbr_is_master = false;
        n.last_rcv_dbd = Some(dbd(0x02020202, 0, 500, vec![]));
        n.last_sent_dbd = Some((1, 500, vec![hdr(10)]));
        let out = n.handle_dbd(dbd(0x02020202, 0, 500, vec![]), me, 1500, &vec![], true);
        assert_eq!(out, None);
        assert_eq!(n.state, state);
        assert!(lists_are_kept(&n));
    }
}

#[test]
fn an_init_flag_in_the_exchange_starts_the_exchange_over() {
    let me = 0x01010101;
    let mut n = neighbor(NbrState::Exchange);
    n.nbr_is_master = true;
    n.nbr_options = 2;
    n.dd_seq_number = 500;
    let out = n.handle_dbd(dbd(0x02020202, 5, 501, vec![]), me, 1500, &vec![], true);
    assert_eq!(out, None);
    assert_eq!(n.state, NbrState::ExStart);
    assert_eq!(n.dd_seq_number, 501);
    assert!(lists_are_empty(&n));
    assert!(n.exstart_rxmt_timer.is_up());
}

#[test]
fn packets_out_of_order_are_a_sequence_number_mismatch() {
    let me = 0x01010101;
    let cases = [
        dbd(0x02020202, 0, 501, vec![]),
        dbd(0x02020202, 1, 500, vec![]),
        dbd(0x02020202, 1, 502, vec![]),
        DBDescription { options: 0, ..dbd(0x02020202, 1, 501, vec![]) },
    ];
    for packet in cases {
        let mut n = neighbor(NbrState::Exchange);
        n.nbr_is_master = true;
        n.nbr_options = 2;
        n.dd_seq_number = 500;
        n.last_rcv_dbd = Some(dbd(0x02020202, 1, 499, vec![]));
        assert_eq!(n.handle_dbd(packet, me, 1500, &vec![], true), None);
        assert_eq!(n.state, NbrState::ExStart);
        assert!(lists_are_empty(&n));
    }
    for state in [NbrState::Loading, NbrState::Full] {
        let mut n = neighbor(state);
        n.last_rcv_dbd = Some(dbd(0x02020202, 1, 499, vec![]));
        assert_eq!(n.handle_dbd(dbd(0x02020202, 1, 500, vec![]), me, 1500, &vec![], true), None);
        assert_eq!(n.state, NbrState::ExStart);
        assert!(lists_are_empty(&n));
    }
}

#[test]
fn below_ex_start_a_description_is_left_aside() {
    let me = 0x01010101;
    for state in [NbrState::Down, NbrState::Attempt, NbrState::TwoWay] {
        let mut n = neighbor(state);
        assert_eq!(n.handle_dbd(dbd(0x02020202, 7, 500, vec![]), me, 1500, &vec![], true), None);
        assert_eq!(n.state, state);
        assert_eq!(n.last_rcv_dbd.as_ref().unwrap().dbd_seq_num, 500);
        assert!(lists_are_kept(&n));
    }
    let mut n = neighbor(NbrState::Init);
    assert_eq!(n.handle_dbd(dbd(0x02020202, 7, 500, vec![]), me, 1500, &vec![], false), None);
    assert_eq!(n.state, NbrState::TwoWay);
}

#[test]
fn a_description_lifts_a_neighbor_from_init_into_the_negotiation() {
    let me = 0x01010101;
    let mut n = neighbor(NbrState::Init);
    n.db_summary_list.clear();
    let out = n.handle_dbd(dbd(0x02020202, 7, 500, vec![]), me, 1500, &vec![hdr(1)], true);
    assert_eq!(n.state, NbrState::Exchange);
    assert!(n.nbr_is_master);
    assert_eq!(out, Some((0, 500, vec![hdr(1)])));
}

#[test]
fn the_retransmission_timers_send_the_last_description_again() {
    let mut n = neighbor(NbrState::ExStart);
    n.dd_seq_number = 33;
    assert_eq!(n.retransmit_dbd(true), None);
    n.exstart_rxmt_timer.start_imm();
    assert_eq!(n.retransmit_dbd(false), None);
    assert_eq!(n.retransmit_dbd(true), Some((7, 33, vec![])));
    assert_eq!(n.last_sent_dbd, Some((7, 33, vec![])));
    assert!(n.exstart_rxmt_timer.is_up());
    let mut n = neighbor(NbrState::Exchange);
    n.last_sent_dbd = Some((1, 34, vec![hdr(9)]));
    assert_eq!(n.retransmit_dbd(true), None);
    n.mst_exch_timer.start();
    assert_eq!(n.retransmit_dbd(true), Some((1, 34, vec![hdr(9)])));
    let mut n = neighbor(NbrState::Full);
    n.mst_exch_timer.start();
    n.exstart_rxmt_timer.start();
    assert_eq!(n.retransmit_dbd(true), None);
}

#[test]
fn a_loading_neighbor_is_asked_for_its_whole_request_list() {
    let mut n = neighbor(NbrState::Loading);
    n.link_state_req_list = vec![hdr(3), LsaHeader { ls_type: 2, advertising_router: 9, ..hdr(4) }];
    let reqs = n.request_lsas(false).unwrap();
    assert_eq!(reqs.len(), 2);
    assert_eq!(
        (reqs[0].link_state_type, reqs[0].link_state_id, reqs[0].advertising_router),
        (1, 3, 3)
    );
    assert_eq!(
        (reqs[1].link_state_type, reqs[1].link_state_id, reqs[1].advertising_router),
        (2, 4, 9)
    );
    assert!(n.lsr_rxmt_timer.is_up());
    assert!(n.request_lsas(false).is_none());
    assert!(n.request_lsas(true).is_some());
    let mut n = neighbor(NbrState::Full);
    assert!(n.request_lsas(true).is_none());
}

#[test]
fn the_retransmission_timer_that_the_state_goes_by_is_the_one_that_is_read() {
    let mut n = neighbor(NbrState::ExStart);
    n.exstart_rxmt_timer = Timer::new(1000);
    n.mst_exch_timer = Timer::new(1000);
    assert!(!n.rxmt_expired());
    n.mst_exch_timer.start_imm();
    assert!(!n.rxmt_expired());
    n.exstart_rxmt_timer.start();
    assert!(!n.rxmt_expired());
    n.exstart_rxmt_timer.start_imm();
    assert!(n.rxmt_expired());
    n.exstart_rxmt_timer.stop();
    assert!(!n.rxmt_expired());

    n.state = NbrState::Exchange;
    assert!(n.rxmt_expired());
    n.mst_exch_timer.start();
    assert!(!n.rxmt_expired());
    n.mst_exch_timer.stop();
    n.exstart_rxmt_timer.start_imm();
    assert!(!n.rxmt_expired());

    n.mst_exch_timer.start_imm();
    for state in [NbrState::Down, NbrState::Init, NbrState::TwoWay, NbrState::Loading, NbrState::Full] {
        n.state = state;
        assert!(!n.rxmt_expired());
    }
}

#[test]
fn a_request_timer_has_run_out_only_while_it_runs() {
    let mut n = neighbor(NbrState::Loading);
    n.lsr_rxmt_timer = Timer::new(1000);
    assert!(!n.lsr_expired());
    n.lsr_rxmt_timer.start();
    assert!(!n.lsr_expired());
    n.lsr_rxmt_timer.start_imm();
    assert!(n.lsr_expired());
    n.lsr_rxmt_timer.stop();
    assert!(!n.lsr_expired());
    n.lsr_rxmt_timer = Timer::new(0);
    assert!(!n.lsr_expired());
    n.lsr_rxmt_timer.start();
    assert!(n.lsr_expired());
}

#[test]
fn an_inactivity_timer_has_run_out_only_while_it_runs() {
    let mut n = neighbor(NbrState::Full);
    n.inactivity_timer = Timer::new(1000);
    assert!(!n.inactivity_expired());
    n.inactivity_timer.start();
    assert!(!n.inactivity_expired());
    n.inactivity_timer.start_imm();
    assert!(n.inactivity_expired());
    n.inactivity_timer.stop();
    assert!(!n.inactivity_expired());
    n.inactivity_timer = Timer::new(0);
    n.inactivity_timer.start();
    assert!(n.inactivity_expired());
}

#[test]
fn a_neighbor_whose_timer_covers_its_interval_goes_down_at_the_first_look() {
    let mut n = neighbor(NbrState::Full);
    n.link_state_req_list = vec![hdr(1)];
    n.inactivity_timer = Timer::new(1000);
    n.inactivity_timer.start_imm();
    n.check_timers();
    assert_eq!(n.state, NbrState::Down);
    assert!(!n.inactivity_timer.is_up());
    assert!(n.link_state_req_list.is_empty());

    let mut n = neighbor(NbrState::Full);
    n.link_state_req_list = vec![hdr(1)];
    n.inactivity_timer = Timer::new(1000);
    n.check_timers();
    assert_eq!(n.state, NbrState::Full);
    assert!(!n.inactivity_timer.is_up());
    assert_eq!(n.link_state_req_list.len(), 1);
    n.inactivity_timer.start();
    n.check_timers();
    assert_eq!(n.state, NbrState::Full);
    assert!(n.inactivity_timer.is_up());
    assert_eq!(n.link_state_req_list.len(), 1);
}
