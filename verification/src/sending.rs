//! The packets that an interface sends, and the sending that its timers
//! drive.

use vstd::prelude::*;
use crate::config::Config;
use crate::interface::{action_models, neighbor_models, Action, ActionModel, Interface,
    InterfaceEvent, InterfaceModel, ALL_SPF_ROUTERS};
use crate::lsa::{Lsa, LsaHeader, LsaModel};
use crate::neighbor::{copy_headers, sent_dbd_model, NbrEvent, NbrState, Neighbor, NeighborModel};
use crate::timer::lemma_may_show;
use crate::packets::{lsa_models, DBDFlag, DBDescription, DbdModel, Header, Hello, HelloModel,
    LinkStateAcknowledgment, LinkStateRequest, LinkStateRequestItem, LinkStateUpdate, LsackModel,
    LsrModel, LsuModel, OSPFPacket, PacketModel, PacketType};

verus! {

/// The router identifiers of the neighbors, in their order.
pub open spec fn neighbor_ids(list: Seq<NeighborModel>) -> Seq<u32> {
    Seq::new(list.len(), |i: int| list[i].nbr_id)
}

/// What a header asks for in a Link State Request.
pub open spec fn request_for(h: LsaHeader) -> LinkStateRequestItem {
    LinkStateRequestItem {
        link_state_type: h.ls_type as u32,
        link_state_id: h.link_state_id,
        advertising_router: h.advertising_router,
    }
}

/// The requests for a list of headers, in their order.
pub open spec fn requests_for(list: Seq<LsaHeader>) -> Seq<LinkStateRequestItem> {
    Seq::new(list.len(), |i: int| request_for(list[i]))
}

impl InterfaceModel {
    /// The Hello packet of the interface: the configuration's values, the
    /// designated router and backup as the interface holds them, and the
    /// router identifiers of all neighbors.
    pub open spec fn hello_packet(self, config: Config) -> PacketModel {
        PacketModel::Hello(
            HelloModel {
                header: Header::blank(PacketType::Hello, config.router_id, config.area_id),
                network_mask: config.network_mask,
                hello_interval: (config.hello_interval % 0x1_0000) as u16,
                options: config.options,
                router_priority: config.router_priority,
                router_dead_interval: config.router_dead_interval,
                designated_router: self.designated_router,
                backup_designated_router: self.backup_designated_router,
                neighbors: neighbor_ids(self.neighbor_list),
            },
        )
    }

    /// The sending of the Hello packet to all routers.
    pub open spec fn hello_action(self, config: Config) -> ActionModel {
        ActionModel::Send(ALL_SPF_ROUTERS, self.hello_packet(config))
    }
}

/// A Database Description packet with the given flags, sequence number and
/// headers.
pub open spec fn dbd_packet(config: Config, flags: u8, seq: u32, hdrs: Seq<LsaHeader>)
    -> PacketModel {
    PacketModel::Dbd(
        DbdModel {
            header: Header::blank(PacketType::DBD, config.router_id, config.area_id),
            interface_mtu: config.default_mtu,
            options: config.options,
            flags,
            dbd_seq_num: seq,
            lsa_hdrs: hdrs,
        },
    )
}

/// A Link State Request packet with the given requests.
pub open spec fn lsr_packet(config: Config, requests: Seq<LinkStateRequestItem>) -> PacketModel {
    PacketModel::Lsr(
        LsrModel {
            header: Header::blank(PacketType::LSR, config.router_id, config.area_id),
            requests,
        },
    )
}

/// A Link State Update packet with the given advertisements.
pub open spec fn lsu_packet(config: Config, lsas: Seq<LsaModel>) -> PacketModel {
    PacketModel::Lsu(
        LsuModel {
            header: Header::blank(PacketType::LSU, config.router_id, config.area_id),
            num_lsa: (lsas.len() % 0x1_0000_0000) as u32,
            lsas,
        },
    )
}

/// A Link State Acknowledgment packet for the given headers.
pub open spec fn lsack_packet(config: Config, hdrs: Seq<LsaHeader>) -> PacketModel {
    PacketModel::Lsack(
        LsackModel {
            header: Header::blank(PacketType::LSAck, config.router_id, config.area_id),
            lsas: hdrs,
        },
    )
}

/// The sending of a Database Description to `ip`, if there is one to send.
pub open spec fn dbd_actions(config: Config, ip: u32, out: Option<(u8, u32, Seq<LsaHeader>)>)
    -> Seq<ActionModel> {
    match out {
        Some(d) => seq![ActionModel::Send(ip, dbd_packet(config, d.0, d.1, d.2))],
        None => Seq::empty(),
    }
}

impl NeighborModel {
    /// The neighbor after its retransmission timer has been looked at, and
    /// the Database Description to send again, if any. `expired` says
    /// whether the timer that the state goes by has run out.
    ///
    /// In `ExStart` the empty packet with all flags set is sent and the
    /// timer starts again. In `Exchange` the packet last sent, if there is
    /// one, is sent and the timer starts again.
    pub open spec fn retransmit(self, expired: bool) -> (
        NeighborModel,
        Option<(u8, u32, Seq<LsaHeader>)>,
    ) {
        if self.state == NbrState::ExStart && self.exstart_rxmt_timer.active && expired {
            let out = (7u8, self.dd_seq_number, Seq::<LsaHeader>::empty());
            (
                NeighborModel {
                    last_sent_dbd: Some(out),
                    exstart_rxmt_timer: self.exstart_rxmt_timer.started(),
                    ..self
                },
                Some(out),
            )
        } else if self.state == NbrState::Exchange && self.mst_exch_timer.active && expired {
            (
                NeighborModel { mst_exch_timer: self.mst_exch_timer.started(), ..self },
                self.last_sent_dbd,
            )
        } else {
            (self, None)
        }
    }

    /// The neighbor after its request timer has been looked at, and the
    /// requests to send, if any. `expired` says whether the running timer
    /// has run out. A neighbor in `Loading` whose timer is not running, or
    /// has run out, is sent the requests for its whole request list, and the
    /// timer starts again.
    pub open spec fn request(self, expired: bool) -> (
        NeighborModel,
        Option<Seq<LinkStateRequestItem>>,
    ) {
        if self.state != NbrState::Loading {
            (self, None)
        } else if self.lsr_rxmt_timer.active && !expired {
            (self, None)
        } else {
            (
                NeighborModel { lsr_rxmt_timer: self.lsr_rxmt_timer.started(), ..self },
                Some(requests_for(self.link_state_req_list)),
            )
        }
    }

    /// The neighbor after its inactivity timer has been looked at: if the
    /// running timer has run out, the neighbor is down and the timer
    /// stopped.
    pub open spec fn expire(self, expired: bool) -> NeighborModel {
        if self.inactivity_timer.active && expired {
            let down = self.step(NbrEvent::InactivityTimer, false);
            NeighborModel { inactivity_timer: down.inactivity_timer.stopped(), ..down }
        } else {
            self
        }
    }
}

impl Neighbor {
    /// Whether the retransmission timer that the state goes by is running
    /// and has run out, by the clock. In a state that goes by no timer,
    /// `false`. A timer that is not running has not run out, and a running
    /// one whose lead covers its interval has, whatever the clock shows.
    pub fn rxmt_expired(&self) -> (expired: bool)
        ensures
            self@.rxmt_may_show(expired),
            expired ==> (self.state == NbrState::ExStart && self@.exstart_rxmt_timer.active) || (
            self.state == NbrState::Exchange && self@.mst_exch_timer.active),
            self.state == NbrState::ExStart && self@.exstart_rxmt_timer.run_out(0) ==> expired,
            self.state == NbrState::Exchange && self@.mst_exch_timer.run_out(0) ==> expired,
    {
        let expired = if self.state == NbrState::ExStart {
            self.exstart_rxmt_timer.is_up() && self.exstart_rxmt_timer.is_expired()
        } else if self.state == NbrState::Exchange {
            self.mst_exch_timer.is_up() && self.mst_exch_timer.is_expired()
        } else {
            false
        };
        proof {
            lemma_may_show(self@.exstart_rxmt_timer, expired);
            lemma_may_show(self@.mst_exch_timer, expired);
        }
        expired
    }

    /// Whether the request timer is running and has run out, by the clock.
    /// A timer that is not running has not run out, and a running one whose
    /// lead covers its interval has, whatever the clock shows.
    pub fn lsr_expired(&self) -> (expired: bool)
        ensures
            self@.lsr_rxmt_timer.may_show(expired),
            expired ==> self@.lsr_rxmt_timer.active,
            self@.lsr_rxmt_timer.run_out(0) ==> expired,
    {
        let expired = self.lsr_rxmt_timer.is_up() && self.lsr_rxmt_timer.is_expired();
        proof {
            lemma_may_show(self@.lsr_rxmt_timer, expired);
        }
        expired
    }

    /// Whether the inactivity timer is running and has run out, by the
    /// clock. A timer that is not running has not run out, and a running one
    /// whose lead covers its interval has, whatever the clock shows.
    pub fn inactivity_expired(&self) -> (expired: bool)
        ensures
            self@.inactivity_timer.may_show(expired),
            expired ==> self@.inactivity_timer.active,
            self@.inactivity_timer.run_out(0) ==> expired,
    {
        let expired = self.inactivity_timer.is_up() && self.inactivity_timer.is_expired();
        proof {
            lemma_may_show(self@.inactivity_timer, expired);
        }
        expired
    }

    /// Looks at the retransmission timer that the state goes by.
    pub fn retransmit_dbd(&mut self, expired: bool) -> (out: Option<(u8, u32, Vec<LsaHeader>)>)
        ensures
            final(self)@ == old(self)@.retransmit(expired).0,
            sent_dbd_model(out) == old(self)@.retransmit(expired).1,
    {
        if self.state == NbrState::ExStart && self.exstart_rxmt_timer.is_up() && expired {
            let flags = DBDFlag::get_all_set().to_byte();
            let hdrs: Vec<LsaHeader> = Vec::new();
            assert(hdrs@ =~= Seq::<LsaHeader>::empty());
            self.last_sent_dbd = Some((flags, self.dd_seq_number, hdrs));
            self.exstart_rxmt_timer.start();
            let none: Vec<LsaHeader> = Vec::new();
            assert(none@ =~= Seq::<LsaHeader>::empty());
            Some((flags, self.dd_seq_number, none))
        } else if self.state == NbrState::Exchange && self.mst_exch_timer.is_up() && expired {
            self.mst_exch_timer.start();
            match &self.last_sent_dbd {
                Some((flags, seq, hdrs)) => Some((*flags, *seq, copy_headers(hdrs))),
                None => None,
            }
        } else {
            None
        }
    }

    /// The requests for the whole request list.
    pub fn requests(&self) -> (reqs: Vec<LinkStateRequestItem>)
        ensures
            reqs@ == requests_for(self@.link_state_req_list),
    {
        let ghost want = requests_for(self@.link_state_req_list);
        let mut reqs: Vec<LinkStateRequestItem> = Vec::new();
        let mut i: usize = 0;
        while i < self.link_state_req_list.len()
            invariant
                i <= self.link_state_req_list.len(),
                want == requests_for(self@.link_state_req_list),
                reqs@ == want.take(i as int),
            decreases self.link_state_req_list.len() - i,
        {
            let h = &self.link_state_req_list[i];
            reqs.push(
                LinkStateRequestItem {
                    link_state_type: h.ls_type as u32,
                    link_state_id: h.link_state_id,
                    advertising_router: h.advertising_router,
                },
            );
            i += 1;
            assert(reqs@ =~= want.take(i as int));
        }
        assert(want.take(i as int) =~= want);
        reqs
    }

    /// Looks at the request timer.
    pub fn request_lsas(&mut self, expired: bool) -> (out: Option<Vec<LinkStateRequestItem>>)
        ensures
            final(self)@ == old(self)@.request(expired).0,
            match out {
                Some(r) => old(self)@.request(expired).1 == Some(r@),
                None => old(self)@.request(expired).1 is None,
            },
    {
        if self.state != NbrState::Loading {
            None
        } else if self.lsr_rxmt_timer.is_up() && !expired {
            None
        } else {
            let reqs = self.requests();
            self.lsr_rxmt_timer.start();
            Some(reqs)
        }
    }
}

impl NeighborModel {
    /// `expired` is what a look at the clock can say of the retransmission
    /// timer that the state goes by: of the one for the start of the
    /// exchange in `ExStart`, of the one for the exchange in `Exchange`. In
    /// a state that goes by no timer, nothing has run out.
    pub open spec fn rxmt_may_show(self, expired: bool) -> bool {
        if self.state == NbrState::ExStart {
            self.exstart_rxmt_timer.may_show(expired)
        } else if self.state == NbrState::Exchange {
            self.mst_exch_timer.may_show(expired)
        } else {
            !expired
        }
    }
}

impl InterfaceModel {
    /// `expired` says for each neighbor what a look at the clock can say of
    /// the retransmission timer that its state goes by.
    pub open spec fn rxmt_may_show(self, expired: Seq<bool>) -> bool {
        expired.len() == self.neighbor_list.len() && forall|i: int|
            0 <= i < expired.len() ==> (#[trigger] self.neighbor_list[i]).rxmt_may_show(
                expired[i],
            )
    }

    /// `expired` says for each neighbor what a look at the clock can say of
    /// its request timer.
    pub open spec fn lsr_may_show(self, expired: Seq<bool>) -> bool {
        expired.len() == self.neighbor_list.len() && forall|i: int|
            0 <= i < expired.len() ==> (#[trigger] self.neighbor_list[i]).lsr_rxmt_timer.may_show(
                expired[i],
            )
    }

    /// `expired` says for each neighbor what a look at the clock can say of
    /// its inactivity timer.
    pub open spec fn inactivity_may_show(self, expired: Seq<bool>) -> bool {
        expired.len() == self.neighbor_list.len() && forall|i: int|
            0 <= i < expired.len() ==> (
            #[trigger] self.neighbor_list[i]).inactivity_timer.may_show(expired[i])
    }

    /// The interface after the retransmission timers of its neighbors have
    /// been looked at, `expired` saying for each neighbor whether its timer
    /// has run out.
    pub open spec fn after_retransmit(self, expired: Seq<bool>) -> InterfaceModel {
        InterfaceModel {
            neighbor_list: Seq::new(
                self.neighbor_list.len(),
                |i: int| self.neighbor_list[i].retransmit(expired[i]).0,
            ),
            ..self
        }
    }

    /// The Database Descriptions that go out again to the first `upto`
    /// neighbors.
    pub open spec fn retransmissions(self, config: Config, expired: Seq<bool>, upto: nat) -> Seq<
        ActionModel,
    >
        decreases upto,
    {
        if upto == 0 {
            Seq::empty()
        } else {
            self.retransmissions(config, expired, (upto - 1) as nat) + dbd_actions(
                config,
                self.neighbor_list[upto - 1].nbr_ip,
                self.neighbor_list[upto - 1].retransmit(expired[upto - 1]).1,
            )
        }
    }

    /// The interface after the request timers of its neighbors have been
    /// looked at.
    pub open spec fn after_requests(self, expired: Seq<bool>) -> InterfaceModel {
        InterfaceModel {
            neighbor_list: Seq::new(
                self.neighbor_list.len(),
                |i: int| self.neighbor_list[i].request(expired[i]).0,
            ),
            ..self
        }
    }

    /// The Link State Requests that go out to the first `upto` neighbors.
    pub open spec fn requests_sent(self, config: Config, expired: Seq<bool>, upto: nat) -> Seq<
        ActionModel,
    >
        decreases upto,
    {
        if upto == 0 {
            Seq::empty()
        } else {
            let before = self.requests_sent(config, expired, (upto - 1) as nat);
            match self.neighbor_list[upto - 1].request(expired[upto - 1]).1 {
                Some(r) => before.push(
                    ActionModel::Send(self.neighbor_list[upto - 1].nbr_ip, lsr_packet(config, r)),
                ),
                None => before,
            }
        }
    }

    /// The interface after its timers have been looked at, and what it asks
    /// for. `hello_due` and `wait_due` say whether the hello timer and the
    /// wait timer have run out, `expired` says that for the inactivity timer
    /// of each neighbor.
    ///
    /// When the running hello timer has run out, the Hello packet goes out
    /// and the timer starts again. When the running wait timer has run out,
    /// the interface takes the event that the wait is over, and the timer
    /// stops. A neighbor whose running inactivity timer has run out goes
    /// down.
    pub open spec fn after_timers(
        self,
        config: Config,
        hello_due: bool,
        wait_due: bool,
        expired: Seq<bool>,
    ) -> (InterfaceModel, Seq<ActionModel>) {
        let said = if self.hello_timer.active && hello_due {
            (
                InterfaceModel { hello_timer: self.hello_timer.started(), ..self },
                seq![self.hello_action(config)],
            )
        } else {
            (self, Seq::<ActionModel>::empty())
        };
        let waited = if said.0.wait_timer.active && wait_due {
            let held = said.0.step(InterfaceEvent::WaitTimer);
            (
                InterfaceModel { wait_timer: held.0.wait_timer.stopped(), ..held.0 },
                said.1 + held.1,
            )
        } else {
            said
        };
        (
            InterfaceModel {
                neighbor_list: Seq::new(
                    waited.0.neighbor_list.len(),
                    |i: int| waited.0.neighbor_list[i].expire(expired[i]),
                ),
                ..waited.0
            },
            waited.1,
        )
    }
}

/// A Link State Update packet of this router with the given advertisements.
pub fn update_packet(config: &Config, lsas: Vec<Lsa>) -> (packet: OSPFPacket)
    ensures
        packet@ == lsu_packet(*config, lsa_models(lsas@)),
{
    OSPFPacket::LinkStateUpdate(
        LinkStateUpdate {
            header: Header::new(PacketType::LSU, config.router_id, config.area_id),
            num_lsa: (lsas.len() as u64 % 0x1_0000_0000u64) as u32,
            lsas,
        },
    )
}

impl Interface {
    /// The sending of the interface's Hello packet to all routers.
    pub fn send_hello(&self, config: &Config) -> (action: Action)
        ensures
            action@ == self@.hello_action(*config),
    {
        let ghost want = neighbor_ids(self@.neighbor_list);
        let mut neighbors: Vec<u32> = Vec::new();
        let mut i: usize = 0;
        while i < self.neighbor_list.len()
            invariant
                i <= self.neighbor_list.len(),
                want == neighbor_ids(self@.neighbor_list),
                neighbors@ == want.take(i as int),
            decreases self.neighbor_list.len() - i,
        {
            assert(self@.neighbor_list[i as int] == self.neighbor_list[i as int]@);
            neighbors.push(self.neighbor_list[i].nbr_id);
            i += 1;
            assert(neighbors@ =~= want.take(i as int));
        }
        assert(want.take(i as int) =~= want);
        Action::Send(
            ALL_SPF_ROUTERS,
            OSPFPacket::Hello(
                Hello {
                    header: Header::new(PacketType::Hello, config.router_id, config.area_id),
                    network_mask: config.network_mask,
                    hello_interval: (config.hello_interval % 0x1_0000) as u16,
                    options: config.options,
                    router_priority: config.router_priority,
                    router_dead_interval: config.router_dead_interval,
                    designated_router: self.designated_router,
                    backup_designated_router: self.backup_designated_router,
                    neighbors,
                },
            ),
        )
    }

    /// The sending of a Database Description packet to `ip`.
    pub fn send_dbd_packet(
        &self,
        config: &Config,
        ip: u32,
        flags: u8,
        dbd_seq_num: u32,
        lsa_hdrs: Vec<LsaHeader>,
    ) -> (action: Action)
        ensures
            action@ == ActionModel::Send(ip, dbd_packet(*config, flags, dbd_seq_num, lsa_hdrs@)),
    {
        Action::Send(
            ip,
            OSPFPacket::DBDescription(
                DBDescription {
                    header: Header::new(PacketType::DBD, config.router_id, config.area_id),
                    interface_mtu: config.default_mtu,
                    options: config.options,
                    flags,
                    dbd_seq_num,
                    lsa_hdrs,
                },
            ),
        )
    }

    /// The sending of a Database Description to `ip`, if there is one.
    pub fn send_dbd(&self, config: &Config, ip: u32, out: Option<(u8, u32, Vec<LsaHeader>)>) -> (actions:
        Vec<Action>)
        ensures
            action_models(actions@) == dbd_actions(*config, ip, sent_dbd_model(out)),
    {
        let mut actions: Vec<Action> = Vec::new();
        match out {
            Some((flags, seq, hdrs)) => {
                actions.push(self.send_dbd_packet(config, ip, flags, seq, hdrs));
            },
            None => {},
        }
        assert(action_models(actions@) =~= dbd_actions(*config, ip, sent_dbd_model(out)));
        actions
    }

    /// The sending of a Link State Request packet to `ip`.
    pub fn send_lsr(&self, config: &Config, ip: u32, requests: Vec<LinkStateRequestItem>) -> (action:
        Action)
        ensures
            action@ == ActionModel::Send(ip, lsr_packet(*config, requests@)),
    {
        Action::Send(
            ip,
            OSPFPacket::LinkStateRequest(
                LinkStateRequest {
                    header: Header::new(PacketType::LSR, config.router_id, config.area_id),
                    requests,
                },
            ),
        )
    }

    /// The sending of a Link State Update packet to `ip`.
    pub fn send_lsu(&self, config: &Config, ip: u32, lsas: Vec<Lsa>) -> (action: Action)
        ensures
            action@ == ActionModel::Send(ip, lsu_packet(*config, lsa_models(lsas@))),
    {
        Action::Send(ip, update_packet(config, lsas))
    }

    /// The sending of a Link State Update packet to all routers.
    pub fn flood_lsu(&self, config: &Config, lsas: Vec<Lsa>) -> (action: Action)
        ensures
            action@ == ActionModel::Send(ALL_SPF_ROUTERS, lsu_packet(*config, lsa_models(lsas@))),
    {
        self.send_lsu(config, ALL_SPF_ROUTERS, lsas)
    }

    /// The sending of a Link State Acknowledgment packet to `ip`.
    pub fn send_lsack(&self, config: &Config, ip: u32, lsas: Vec<LsaHeader>) -> (action: Action)
        ensures
            action@ == ActionModel::Send(ip, lsack_packet(*config, lsas@)),
    {
        Action::Send(
            ip,
            OSPFPacket::LinkStateAcknowledgment(
                LinkStateAcknowledgment {
                    header: Header::new(PacketType::LSAck, config.router_id, config.area_id),
                    lsas,
                },
            ),
        )
    }

    /// Looks at the retransmission timers of the neighbors, `expired`
    /// saying for each neighbor whether the timer that its state goes by has
    /// run out, and sends the Database Descriptions that are due again.
    #[verifier::rlimit(40)]
    pub fn send_dbd_given(&mut self, config: &Config, expired: &Vec<bool>) -> (actions: Vec<Action>)
        requires
            expired@.len() == old(self).neighbor_list@.len(),
        ensures
            final(self)@ == old(self)@.after_retransmit(expired@),
            action_models(actions@) == old(self)@.retransmissions(
                *config,
                expired@,
                old(self)@.neighbor_list.len(),
            ),
    {
        let ghost before = self@;
        let ghost want = before.after_retransmit(expired@).neighbor_list;
        let mut actions: Vec<Action> = Vec::new();
        let mut i: usize = 0;
        assert(action_models(actions@) =~= before.retransmissions(*config, expired@, 0));
        while i < self.neighbor_list.len()
            invariant
                i <= self.neighbor_list.len(),
                expired@.len() == before.neighbor_list.len(),
                self@.neighbor_list.len() == before.neighbor_list.len(),
                before == old(self)@,
                want == before.after_retransmit(expired@).neighbor_list,
                self@ == (InterfaceModel { neighbor_list: self@.neighbor_list, ..before }),
                forall|j: int| 0 <= j < i ==> (#[trigger] self@.neighbor_list[j]) == want[j],
                forall|j: int|
                    i <= j < self.neighbor_list.len() ==> (#[trigger] self@.neighbor_list[j])
                        == before.neighbor_list[j],
                action_models(actions@) == before.retransmissions(*config, expired@, i as nat),
            decreases self.neighbor_list.len() - i,
        {
            let ghost list = self.neighbor_list@;
            let ghost done = action_models(actions@);
            assert(self@.neighbor_list[i as int] == self.neighbor_list[i as int]@);
            let ip = self.neighbor_list[i].nbr_ip;
            let out = self.neighbor_list[i].retransmit_dbd(expired[i]);
            let mut more = self.send_dbd(config, ip, out);
            let ghost added = action_models(more@);
            actions.append(&mut more);
            proof {
                assert(action_models(actions@) =~= done + added);
                assert(self.neighbor_list@.len() == list.len());
                assert forall|j: int| 0 <= j < i + 1 implies (#[trigger] self@.neighbor_list[j])
                    == want[j] by {
                    if j < i {
                        assert(self.neighbor_list@[j] == list[j]);
                        assert(neighbor_models(list)[j] == want[j]);
                    }
                }
                assert forall|j: int| i + 1 <= j < self.neighbor_list.len() implies (
                #[trigger] self@.neighbor_list[j]) == before.neighbor_list[j] by {
                    assert(self.neighbor_list@[j] == list[j]);
                    assert(neighbor_models(list)[j] == before.neighbor_list[j]);
                }
            }
            i += 1;
        }
        assert(self@.neighbor_list =~= want);
        actions
    }

    /// Reads for each neighbor whether the retransmission timer that its
    /// state goes by has run out.
    pub fn rxmt_readings(&self) -> (expired: Vec<bool>)
        ensures
            expired@.len() == self.neighbor_list@.len(),
            self@.rxmt_may_show(expired@),
            forall|i: int|
                0 <= i < expired@.len() && #[trigger] expired@[i] ==> (self@.neighbor_list[i].state == NbrState::ExStart
                    && self@.neighbor_list[i].exstart_rxmt_timer.active) || (
                self@.neighbor_list[i].state == NbrState::Exchange
                    && self@.neighbor_list[i].mst_exch_timer.active),
    {
        let mut expired: Vec<bool> = Vec::new();
        let mut i: usize = 0;
        while i < self.neighbor_list.len()
            invariant
                i <= self.neighbor_list.len(),
                expired@.len() == i,
                forall|k: int|
                    0 <= k < i ==> (#[trigger] self@.neighbor_list[k]).rxmt_may_show(expired@[k]),
                forall|i: int|
                    0 <= i < expired@.len() && #[trigger] expired@[i] ==> (self@.neighbor_list[i].state == NbrState::ExStart
                    && self@.neighbor_list[i].exstart_rxmt_timer.active) || (
                self@.neighbor_list[i].state == NbrState::Exchange
                    && self@.neighbor_list[i].mst_exch_timer.active),
            decreases self.neighbor_list.len() - i,
        {
            assert(self@.neighbor_list[i as int] == self.neighbor_list[i as int]@);
            expired.push(self.neighbor_list[i].rxmt_expired());
            i += 1;
        }
        expired
    }

    /// Sends again the Database Descriptions whose timers have run out; the
    /// timers are read off the clock.
    pub fn send_dbd_if_need(&mut self, config: &Config) -> (actions: Vec<Action>)
        ensures
            exists|expired: Seq<bool>|
                old(self)@.rxmt_may_show(expired)
                    && #[trigger] old(self)@.after_retransmit(expired) == final(self)@
                    && action_models(actions@) == old(self)@.retransmissions(
                    *config,
                    expired,
                    old(self)@.neighbor_list.len(),
                ),
    {
        let expired = self.rxmt_readings();
        let actions = self.send_dbd_given(config, &expired);
        assert(old(self)@.after_retransmit(expired@) == self@);
        actions
    }

    /// Looks at the request timers of the neighbors, `expired` saying for
    /// each neighbor whether its running timer has run out, and sends the
    /// Link State Requests that are due.
    #[verifier::rlimit(40)]
    pub fn send_lsr_given(&mut self, config: &Config, expired: &Vec<bool>) -> (actions: Vec<Action>)
        requires
            expired@.len() == old(self).neighbor_list@.len(),
        ensures
            final(self)@ == old(self)@.after_requests(expired@),
            action_models(actions@) == old(self)@.requests_sent(
                *config,
                expired@,
                old(self)@.neighbor_list.len(),
            ),
    {
        let ghost before = self@;
        let ghost want = before.after_requests(expired@).neighbor_list;
        let mut actions: Vec<Action> = Vec::new();
        let mut i: usize = 0;
        assert(action_models(actions@) =~= before.requests_sent(*config, expired@, 0));
        while i < self.neighbor_list.len()
            invariant
                i <= self.neighbor_list.len(),
                expired@.len() == before.neighbor_list.len(),
                self@.neighbor_list.len() == before.neighbor_list.len(),
                before == old(self)@,
                want == before.after_requests(expired@).neighbor_list,
                self@ == (InterfaceModel { neighbor_list: self@.neighbor_list, ..before }),
                forall|j: int| 0 <= j < i ==> (#[trigger] self@.neighbor_list[j]) == want[j],
                forall|j: int|
                    i <= j < self.neighbor_list.len() ==> (#[trigger] self@.neighbor_list[j])
                        == before.neighbor_list[j],
                action_models(actions@) == before.requests_sent(*config, expired@, i as nat),
            decreases self.neighbor_list.len() - i,
        {
            let ghost list = self.neighbor_list@;
            let ghost done = action_models(actions@);
            assert(self@.neighbor_list[i as int] == self.neighbor_list[i as int]@);
            let ip = self.neighbor_list[i].nbr_ip;
            match self.neighbor_list[i].request_lsas(expired[i]) {
                Some(reqs) => {
                    let action = self.send_lsr(config, ip, reqs);
                    let ghost model = action@;
                    actions.push(action);
                    assert(action_models(actions@) =~= done.push(model));
                },
                None => {},
            }
            proof {
                assert(self.neighbor_list@.len() == list.len());
                assert forall|j: int| 0 <= j < i + 1 implies (#[trigger] self@.neighbor_list[j])
                    == want[j] by {
                    if j < i {
                        assert(self.neighbor_list@[j] == list[j]);
                        assert(neighbor_models(list)[j] == want[j]);
                    }
                }
                assert forall|j: int| i + 1 <= j < self.neighbor_list.len() implies (
                #[trigger] self@.neighbor_list[j]) == before.neighbor_list[j] by {
                    assert(self.neighbor_list@[j] == list[j]);
                    assert(neighbor_models(list)[j] == before.neighbor_list[j]);
                }
            }
            i += 1;
        }
        assert(self@.neighbor_list =~= want);
        actions
    }

    /// Reads for each neighbor whether its running request timer has run
    /// out.
    pub fn lsr_readings(&self) -> (expired: Vec<bool>)
        ensures
            expired@.len() == self.neighbor_list@.len(),
            self@.lsr_may_show(expired@),
            forall|i: int|
                0 <= i < expired@.len() && #[trigger] expired@[i] ==> self@.neighbor_list[i].lsr_rxmt_timer.active,
    {
        let mut expired: Vec<bool> = Vec::new();
        let mut i: usize = 0;
        while i < self.neighbor_list.len()
            invariant
                i <= self.neighbor_list.len(),
                expired@.len() == i,
                forall|k: int|
                    0 <= k < i ==> (#[trigger] self@.neighbor_list[k]).lsr_rxmt_timer.may_show(expired@[k]),
                forall|i: int|
                    0 <= i < expired@.len() && #[trigger] expired@[i] ==> self@.neighbor_list[i].lsr_rxmt_timer.active,
            decreases self.neighbor_list.len() - i,
        {
            assert(self@.neighbor_list[i as int] == self.neighbor_list[i as int]@);
            expired.push(self.neighbor_list[i].lsr_expired());
            i += 1;
        }
        expired
    }

    /// Sends the Link State Requests that are due; the timers are read off
    /// the clock.
    pub fn send_lsr_if_need(&mut self, config: &Config) -> (actions: Vec<Action>)
        ensures
            exists|expired: Seq<bool>|
                old(self)@.lsr_may_show(expired)
                    && #[trigger] old(self)@.after_requests(expired) == final(self)@
                    && action_models(actions@) == old(self)@.requests_sent(
                    *config,
                    expired,
                    old(self)@.neighbor_list.len(),
                ),
    {
        let expired = self.lsr_readings();
        let actions = self.send_lsr_given(config, &expired);
        assert(old(self)@.after_requests(expired@) == self@);
        actions
    }

    /// Has each neighbor look at its inactivity timer, `expired` saying for
    /// each whether the running timer has run out.
    pub fn expire_neighbors(&mut self, expired: &Vec<bool>)
        requires
            expired@.len() == old(self).neighbor_list@.len(),
        ensures
            final(self)@ == (InterfaceModel {
                neighbor_list: Seq::new(
                    old(self)@.neighbor_list.len(),
                    |i: int| old(self)@.neighbor_list[i].expire(expired@[i]),
                ),
                ..old(self)@
            }),
    {
        let ghost before = self@;
        let ghost want = Seq::new(
            before.neighbor_list.len(),
            |i: int| before.neighbor_list[i].expire(expired@[i]),
        );
        let mut i: usize = 0;
        while i < self.neighbor_list.len()
            invariant
                i <= self.neighbor_list.len(),
                expired@.len() == before.neighbor_list.len(),
                self@.neighbor_list.len() == before.neighbor_list.len(),
                before == old(self)@,
                want == Seq::new(
                    before.neighbor_list.len(),
                    |i: int| before.neighbor_list[i].expire(expired@[i]),
                ),
                self@ == (InterfaceModel { neighbor_list: self@.neighbor_list, ..before }),
                forall|j: int| 0 <= j < i ==> (#[trigger] self@.neighbor_list[j]) == want[j],
                forall|j: int|
                    i <= j < self.neighbor_list.len() ==> (#[trigger] self@.neighbor_list[j])
                        == before.neighbor_list[j],
            decreases self.neighbor_list.len() - i,
        {
            let ghost list = self.neighbor_list@;
            assert(self@.neighbor_list[i as int] == self.neighbor_list[i as int]@);
            self.neighbor_list[i].expire_if(expired[i]);
            proof {
                assert(self.neighbor_list@.len() == list.len());
                assert forall|j: int| 0 <= j < i + 1 implies (#[trigger] self@.neighbor_list[j])
                    == want[j] by {
                    if j < i {
                        assert(self.neighbor_list@[j] == list[j]);
                        assert(neighbor_models(list)[j] == want[j]);
                    }
                }
                assert forall|j: int| i + 1 <= j < self.neighbor_list.len() implies (
                #[trigger] self@.neighbor_list[j]) == before.neighbor_list[j] by {
                    assert(self.neighbor_list@[j] == list[j]);
                    assert(neighbor_models(list)[j] == before.neighbor_list[j]);
                }
            }
            i += 1;
        }
        assert(self@.neighbor_list =~= want);
    }

    /// Looks at the timers of the interface and of its neighbors, as
    /// `hello_due`, `wait_due` and `expired` say they stand.
    #[verifier::rlimit(40)]
    pub fn check_timers_given(
        &mut self,
        config: &Config,
        hello_due: bool,
        wait_due: bool,
        expired: &Vec<bool>,
    ) -> (actions: Vec<Action>)
        requires
            expired@.len() == old(self).neighbor_list@.len(),
        ensures
            final(self)@ == old(self)@.after_timers(*config, hello_due, wait_due, expired@).0,
            action_models(actions@) == old(self)@.after_timers(
                *config,
                hello_due,
                wait_due,
                expired@,
            ).1,
    {
        let mut actions: Vec<Action> = Vec::new();
        assert(action_models(actions@) =~= Seq::<ActionModel>::empty());
        if self.hello_timer.is_up() && hello_due {
            let action = self.send_hello(config);
            let ghost model = action@;
            actions.push(action);
            assert(action_models(actions@) =~= seq![model]);
            self.hello_timer.start();
        }
        if self.wait_timer.is_up() && wait_due {
            let ghost said = action_models(actions@);
            let mut more = self.handle_event(InterfaceEvent::WaitTimer);
            let ghost added = action_models(more@);
            actions.append(&mut more);
            assert(action_models(actions@) =~= said + added);
            self.wait_timer.stop();
        }
        assert(self@.neighbor_list.len() == old(self)@.neighbor_list.len());
        self.expire_neighbors(expired);
        actions
    }

    /// Reads for each neighbor whether its running inactivity timer has run
    /// out.
    pub fn inactivity_readings(&self) -> (expired: Vec<bool>)
        ensures
            expired@.len() == self.neighbor_list@.len(),
            self@.inactivity_may_show(expired@),
            forall|i: int|
                0 <= i < expired@.len() && #[trigger] expired@[i] ==> self@.neighbor_list[i].inactivity_timer.active,
    {
        let mut expired: Vec<bool> = Vec::new();
        let mut i: usize = 0;
        while i < self.neighbor_list.len()
            invariant
                i <= self.neighbor_list.len(),
                expired@.len() == i,
                forall|k: int|
                    0 <= k < i ==> (#[trigger] self@.neighbor_list[k]).inactivity_timer.may_show(expired@[k]),
                forall|i: int|
                    0 <= i < expired@.len() && #[trigger] expired@[i] ==> self@.neighbor_list[i].inactivity_timer.active,
            decreases self.neighbor_list.len() - i,
        {
            assert(self@.neighbor_list[i as int] == self.neighbor_list[i as int]@);
            expired.push(self.neighbor_list[i].inactivity_expired());
            i += 1;
        }
        expired
    }

    /// Looks at the timers of the interface and of its neighbors; the
    /// timers are read off the clock.
    pub fn check_timers(&mut self, config: &Config) -> (actions: Vec<Action>)
        ensures
            exists|hello_due: bool, wait_due: bool, expired: Seq<bool>|
                old(self)@.hello_timer.may_show(hello_due) && old(self)@.wait_timer.may_show(
                    wait_due,
                ) && old(self)@.inactivity_may_show(expired)
                    && #[trigger] old(self)@.after_timers(*config, hello_due, wait_due, expired)
                    == (final(self)@, action_models(actions@)),
    {
        let hello_due = self.hello_timer.is_up() && self.hello_timer.is_expired();
        let wait_due = self.wait_timer.is_up() && self.wait_timer.is_expired();
        proof {
            lemma_may_show(self@.hello_timer, hello_due);
            lemma_may_show(self@.wait_timer, wait_due);
        }
        let expired = self.inactivity_readings();
        let actions = self.check_timers_given(config, hello_due, wait_due, &expired);
        assert(old(self)@.after_timers(*config, hello_due, wait_due, expired@) == (
            self@,
            action_models(actions@),
        ));
        actions
    }
}

} // verus!
