//! An interface with the database at hand: whole packets, and the watch on
//! the neighbors.

use vstd::prelude::*;
use crate::checksum::internet_checksum;
use crate::config::{Config, MIN_LS_ARRIVAL};
use crate::packets_parse::parse_packet;
use crate::database::{lemma_position, DatabaseRequestType, DatabaseResponse, DbModel,
    LinkStateDatabase, LsaKey, ResponseModel};
use crate::flooding::copy_of;
use crate::ipv4::{carried, unframe};
use crate::interface::{action_models, Action, ActionModel, Interface, InterfaceModel,
    InterfaceState, ALL_SPF_ROUTERS};
use crate::lsa::{Lsa, LsaHeader, LsaModel};
use crate::neighbor::NbrState;
use crate::packets::{lsa_models, LinkStateRequestItem, LinkStateUpdate, OSPFPacket, PacketModel};
use crate::sending::lsu_packet;

verus! {

/// The headers of a list of advertisements, in their order.
pub open spec fn headers_of(lsas: Seq<LsaModel>) -> Seq<LsaHeader> {
    Seq::new(lsas.len(), |i: int| lsas[i].header())
}

/// The pairs of link-state id and advertising router that a list of requests
/// names, in their order.
pub open spec fn queries_of(requests: Seq<LinkStateRequestItem>) -> Seq<(u32, u32)> {
    Seq::new(requests.len(), |i: int| (requests[i].link_state_id, requests[i].advertising_router))
}

/// The interface and the database after the first `upto` advertisements of
/// a Link State Update from the router `ip`, what the interface asks for,
/// and whether the rest of the packet is left aside. Each advertisement is
/// judged against the copy that the database holds at that moment, and the
/// database installs it if it is accepted.
pub open spec fn lsu_fold(
    iface: InterfaceModel,
    db: DbModel,
    ip: u32,
    lsas: Seq<LsaModel>,
    upto: nat,
) -> (InterfaceModel, DbModel, Seq<ActionModel>, bool)
    decreases upto,
{
    if upto == 0 {
        (iface, db, Seq::empty(), false)
    } else {
        let b = lsu_fold(iface, db, ip, lsas, (upto - 1) as nat);
        if b.3 {
            b
        } else {
            let l = lsas[upto - 1];
            let s = b.0.lsa_step(
                ip,
                l,
                copy_of(b.1.lsas, l.header()),
                b.1.recent(l.header()),
                b.1.config,
            );
            (
                s.0,
                if s.2.accept {
                    b.1.adding(l).0
                } else {
                    b.1
                },
                b.2 + s.1,
                s.2.abort,
            )
        }
    }
}

/// The interface and the database after a packet that came from the address
/// `src_ip`, and what the interface asks for. A Link State Acknowledgment
/// changes nothing.
pub open spec fn packet_step(iface: InterfaceModel, db: DbModel, packet: PacketModel, src_ip: u32)
    -> (InterfaceModel, DbModel, Seq<ActionModel>) {
    match packet {
        PacketModel::Hello(hello) => {
            let r = iface.hello_step(hello, src_ip, db.config);
            (r.0, db, r.1)
        },
        PacketModel::Dbd(dbd) => {
            let r = iface.dbd_step(dbd, db.config, headers_of(db.lsas));
            (r.0, db, r.1)
        },
        PacketModel::Lsr(lsr) => {
            let r = iface.lsr_step(
                lsr,
                db.config,
                crate::database::multi_answers(db.lsas, queries_of(lsr.requests)),
            );
            (r.0, db, r.1)
        },
        PacketModel::Lsu(lsu) => {
            let r = lsu_fold(iface, db, lsu.header.router_id, lsu.lsas, lsu.lsas.len());
            (r.0, r.1, r.2)
        },
        PacketModel::Lsack(_) => (iface, db, Seq::empty()),
    }
}

/// The advertisement with the identity of `h` that the database holds.
pub fn stored(db: &LinkStateDatabase, h: &LsaHeader) -> (copy: Option<Lsa>)
    ensures
        match copy {
            Some(c) => copy_of(db@.lsas, *h) == Some(c@) && c@.header().same_identity(*h),
            None => copy_of(db@.lsas, *h) is None,
        },
{
    let key = LsaKey::Identity(*h);
    proof {
        lemma_position(db@.lsas, key);
    }
    match db.find(&key) {
        Some(i) => {
            assert(db@.lsas[i as int] == db.lsa_list[i as int]@);
            Some(db.lsa_list[i].clone())
        },
        None => None,
    }
}

/// The headers of the advertisements that the database holds.
pub fn database_headers(db: &LinkStateDatabase) -> (hdrs: Vec<LsaHeader>)
    ensures
        hdrs@ == headers_of(db@.lsas),
{
    let ghost want = headers_of(db@.lsas);
    let mut hdrs: Vec<LsaHeader> = Vec::new();
    let mut i: usize = 0;
    while i < db.lsa_list.len()
        invariant
            i <= db.lsa_list.len(),
            want == headers_of(db@.lsas),
            hdrs@ == want.take(i as int),
        decreases db.lsa_list.len() - i,
    {
        assert(db@.lsas[i as int] == db.lsa_list[i as int]@);
        hdrs.push(*db.lsa_list[i].get_hdr());
        i += 1;
        assert(hdrs@ =~= want.take(i as int));
    }
    assert(want.take(i as int) =~= want);
    hdrs
}

/// The pairs of link-state id and advertising router that a list of requests
/// names.
pub fn request_queries(requests: &Vec<LinkStateRequestItem>) -> (queries: Vec<(u32, u32)>)
    ensures
        queries@ == queries_of(requests@),
{
    let ghost want = queries_of(requests@);
    let mut queries: Vec<(u32, u32)> = Vec::new();
    let mut i: usize = 0;
    while i < requests.len()
        invariant
            i <= requests.len(),
            want == queries_of(requests@),
            queries@ == want.take(i as int),
        decreases requests.len() - i,
    {
        queries.push((requests[i].link_state_id, requests[i].advertising_router));
        i += 1;
        assert(queries@ =~= want.take(i as int));
    }
    assert(want.take(i as int) =~= want);
    queries
}

/// What an interface with the address `addr` takes from a captured frame:
/// the packet and the address of its sender, if the frame carries an OSPF
/// datagram for `addr` or for all routers, from another address, that holds
/// at its front a packet whose checksum is right.
pub open spec fn accepted(addr: u32, frame: Seq<u8>) -> Option<(PacketModel, u32)> {
    match carried(frame) {
        Some((dst, src, payload)) => if (dst == addr || dst == ALL_SPF_ROUTERS) && src != addr
            && parse_packet(payload) is Ok && internet_checksum(
            parse_packet(payload)->Ok_0.0.encoding(),
        ) == 0 {
            Some((parse_packet(payload)->Ok_0.0, src))
        } else {
            None
        },
        None => None,
    }
}

impl Interface {
    /// Whether a datagram to the address `ip` is meant for this interface:
    /// `ip` is the interface's own address or the address of all routers.
    pub fn check_ip(&self, ip: u32) -> (mine: bool)
        ensures
            mine == (ip == self.addr || ip == ALL_SPF_ROUTERS),
    {
        ip == self.addr || ip == ALL_SPF_ROUTERS
    }

    /// The packet in a datagram that came from `src` for `dst`, if the
    /// datagram is meant for this interface, comes from another router, and
    /// holds at its front a packet whose checksum is right.
    pub fn take_datagram(&self, dst: u32, src: u32, payload: &[u8]) -> (taken: Option<OSPFPacket>)
        ensures
            taken is Some <==> (dst == self.addr || dst == ALL_SPF_ROUTERS) && src != self.addr
                && parse_packet(payload@) is Ok && internet_checksum(
                parse_packet(payload@)->Ok_0.0.encoding(),
            ) == 0,
            taken matches Some(p) ==> p@ == parse_packet(payload@)->Ok_0.0,
    {
        if !self.check_ip(dst) || src == self.addr {
            return None;
        }
        match OSPFPacket::parse(payload) {
            Ok((_, packet)) => {
                if packet.checksum_ok() {
                    Some(packet)
                } else {
                    None
                }
            },
            Err(_) => None,
        }
    }

    /// The packet in a captured frame and the address it came from, if the
    /// frame carries an OSPF datagram that `take_datagram` accepts.
    pub fn take_frame(&self, frame: &[u8]) -> (taken: Option<(OSPFPacket, u32)>)
        ensures
            match taken {
                Some((packet, src)) => accepted(self.addr, frame@) == Some((packet@, src)),
                None => accepted(self.addr, frame@) is None,
            },
    {
        match unframe(frame) {
            Some((dst, src, payload)) => match self.take_datagram(dst, src, payload.as_slice()) {
                Some(packet) => Some((packet, src)),
                None => None,
            },
            None => None,
        }
    }

    /// The flooding of the advertisement that the database has answered an
    /// origination with; nothing for any other answer.
    pub fn flood_reply(&self, config: &Config, resp: DatabaseResponse) -> (actions: Vec<Action>)
        ensures
            action_models(actions@) == match resp@ {
                ResponseModel::Lsa(l) => seq![
                    ActionModel::Send(ALL_SPF_ROUTERS, lsu_packet(*config, seq![l])),
                ],
                _ => Seq::empty(),
            },
    {
        let mut actions: Vec<Action> = Vec::new();
        match resp {
            DatabaseResponse::Lsa(lsa) => {
                let mut one: Vec<Lsa> = Vec::new();
                let ghost l = lsa@;
                one.push(lsa);
                assert(lsa_models(one@) =~= seq![l]);
                let flood = self.flood_lsu(config, one);
                let ghost m = flood@;
                actions.push(flood);
                assert(action_models(actions@) =~= seq![m]);
            },
            _ => {
                assert(action_models(actions@) =~= Seq::<ActionModel>::empty());
            },
        }
        actions
    }

    /// Whether a neighbor has reached or left state `Full` since the states
    /// were last noted.
    pub fn any_full_changed(&self) -> (any: bool)
        ensures
            any == self@.full_changed(),
    {
        let mut k: usize = 0;
        while k < self.last_nbr_state.len()
            invariant
                k <= self.last_nbr_state.len(),
                forall|j: int| 0 <= j < k ==> !#[trigger] self@.entry_full(j),
            decreases self.last_nbr_state.len() - k,
        {
            let (ip, state) = self.last_nbr_state[k];
            let full_now = match self.get_neighbor_index(ip) {
                Some(i) => {
                    assert(self@.neighbor_list[i as int] == self.neighbor_list[i as int]@);
                    self.neighbor_list[i].state == NbrState::Full
                },
                None => false,
            };
            if (state == NbrState::Full) != full_now {
                assert(self@.entry_full(k as int));
                return true;
            }
            k += 1;
        }
        false
    }

    /// Whether the neighbors have changed since their states were last
    /// noted.
    pub fn any_neighbor_changed(&self) -> (any: bool)
        ensures
            any == self@.neighbors_changed(),
    {
        let mut k: usize = 0;
        while k < self.last_nbr_state.len()
            invariant
                k <= self.last_nbr_state.len(),
                forall|j: int| 0 <= j < k ==> !#[trigger] self@.entry_changed(j),
            decreases self.last_nbr_state.len() - k,
        {
            let (ip, state) = self.last_nbr_state[k];
            match self.get_neighbor_index(ip) {
                Some(i) => {
                    assert(self@.neighbor_list[i as int] == self.neighbor_list[i as int]@);
                    if state.two_way_comm_status_changed(self.neighbor_list[i].state) {
                        assert(self@.entry_changed(k as int));
                        return true;
                    }
                },
                None => {
                    assert(self@.entry_changed(k as int));
                    return true;
                },
            }
            k += 1;
        }
        self.last_nbr_state.len() != self.neighbor_list.len()
    }

    /// Looks at the neighbors against their states as last noted. Says
    /// whether they have changed, so that the interface is to take the event
    /// of a neighbor change, and gives what the interface asks for where a
    /// neighbor has reached or left state `Full`.
    pub fn check_nbr_change(&self) -> (r: (bool, Vec<Action>))
        ensures
            r.0 == self@.neighbors_changed(),
            action_models(r.1@) == self@.full_actions(),
    {
        let mut actions: Vec<Action> = Vec::new();
        assert(action_models(actions@) =~= Seq::<ActionModel>::empty());
        if self.any_full_changed() {
            actions = self.query_gen_router_lsa();
            if self.state == InterfaceState::DR {
                let ghost first = action_models(actions@);
                let mut more = self.query_gen_network_lsa();
                let ghost second = action_models(more@);
                actions.append(&mut more);
                assert(action_models(actions@) =~= first + second);
            } else {
                assert(action_models(actions@) =~= self@.router_lsa_actions()
                    + Seq::<ActionModel>::empty());
            }
        }
        (self.any_neighbor_changed(), actions)
    }

    /// Takes a Link State Update packet: each advertisement in turn is
    /// judged against the database and, if it is accepted, installed there.
    #[verifier::rlimit(40)]
    pub fn handle_lsu(&mut self, lsu: LinkStateUpdate, db: &mut LinkStateDatabase) -> (actions:
        Vec<Action>)
        requires
            old(db)@.wf(),
        ensures
            final(db)@.wf(),
            final(self)@ == lsu_fold(
                old(self)@,
                old(db)@,
                lsu@.header.router_id,
                lsu@.lsas,
                lsu@.lsas.len(),
            ).0,
            final(db)@ == lsu_fold(
                old(self)@,
                old(db)@,
                lsu@.header.router_id,
                lsu@.lsas,
                lsu@.lsas.len(),
            ).1,
            action_models(actions@) == lsu_fold(
                old(self)@,
                old(db)@,
                lsu@.header.router_id,
                lsu@.lsas,
                lsu@.lsas.len(),
            ).2,
    {
        let ip = lsu.header.router_id;
        let ghost lsas = lsu@.lsas;
        let mut actions: Vec<Action> = Vec::new();
        let mut aborted = false;
        let mut i: usize = 0;
        assert(action_models(actions@) =~= Seq::<ActionModel>::empty());
        while i < lsu.lsas.len()
            invariant
                i <= lsu.lsas.len(),
                lsas == lsu@.lsas,
                lsas.len() == lsu.lsas@.len(),
                ip == lsu@.header.router_id,
                db@.wf(),
                (self@, db@, action_models(actions@), aborted) == lsu_fold(
                    old(self)@,
                    old(db)@,
                    ip,
                    lsas,
                    i as nat,
                ),
            decreases lsu.lsas.len() - i,
        {
            if !aborted {
                let lsa = &lsu.lsas[i];
                assert(lsas[i as int] == lsa@);
                let config = db.global_config;
                let copy = stored(db, lsa.get_hdr());
                let recent = db.held_less_than(lsa.get_hdr(), MIN_LS_ARRIVAL);
                let ghost sofar = action_models(actions@);
                let (mut more, out) = self.handle_lsa(ip, lsa, copy.as_ref(), recent, &config);
                let ghost added = action_models(more@);
                actions.append(&mut more);
                assert(action_models(actions@) =~= sofar + added);
                if out.accept {
                    let _ = db.handle_request(DatabaseRequestType::AddOrUpdateLsa(lsa.clone()));
                }
                aborted = out.abort;
            }
            i += 1;
        }
        actions
    }

    /// Takes a packet that came from the address `src_ip`, with the database
    /// at hand for what the packet needs of it.
    pub fn handle_packet(&mut self, packet: OSPFPacket, src_ip: u32, db: &mut LinkStateDatabase)
        -> (actions: Vec<Action>)
        requires
            old(db)@.wf(),
        ensures
            final(db)@.wf(),
            final(self)@ == packet_step(old(self)@, old(db)@, packet@, src_ip).0,
            final(db)@ == packet_step(old(self)@, old(db)@, packet@, src_ip).1,
            action_models(actions@) == packet_step(old(self)@, old(db)@, packet@, src_ip).2,
    {
        let config = db.global_config;
        match packet {
            OSPFPacket::Hello(hello) => self.handle_hello(hello, src_ip, &config),
            OSPFPacket::DBDescription(dbd) => {
                let hdrs = database_headers(db);
                self.handle_dbd(dbd, &config, &hdrs)
            },
            OSPFPacket::LinkStateRequest(lsr) => {
                let queries = request_queries(&lsr.requests);
                let answers = db.query_multi(&queries);
                self.handle_lsr(lsr, &config, answers)
            },
            OSPFPacket::LinkStateUpdate(lsu) => self.handle_lsu(lsu, db),
            OSPFPacket::LinkStateAcknowledgment(_) => {
                let none: Vec<Action> = Vec::new();
                assert(action_models(none@) =~= Seq::<ActionModel>::empty());
                none
            },
        }
    }
}

} // verus!
