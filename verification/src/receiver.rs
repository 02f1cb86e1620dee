//! What an interface does with the packets that arrive on it.

use vstd::prelude::*;
use crate::config::Config;

use crate::flooding::{remove_identity, without_identity, LsuOutcome};
use crate::interface::{action_models, neighbor_models, neighbor_with_id, Action, ActionModel,
    Interface, InterfaceEvent, InterfaceModel, InterfaceState, ALL_SPF_ROUTERS};
use crate::lsa::{Lsa, LsaHeader, LsaModel};
use crate::neighbor::{NbrEvent, NbrState, Neighbor, NeighborModel};
use crate::packets::{lsa_models, DBDescription, DbdModel, Hello, HelloModel, LinkStateRequest,
    LsrModel};
use crate::sending::{dbd_actions, lsack_packet, lsu_packet};

verus! {

impl InterfaceModel {
    /// The interface with the neighbor at place `i` replaced.
    pub open spec fn with_neighbor(self, i: int, n: NeighborModel) -> InterfaceModel {
        InterfaceModel { neighbor_list: self.neighbor_list.update(i, n), ..self }
    }

    /// The interface with a neighbor for the sender of `hello`, if it has
    /// none yet.
    pub open spec fn knowing(self, hello: HelloModel) -> InterfaceModel {
        match neighbor_with_id(self.neighbor_list, hello.header.router_id) {
            Some(_) => self,
            None => InterfaceModel {
                neighbor_list: self.neighbor_list.push(
                    NeighborModel {
                        nbr_id: hello.header.router_id,
                        nbr_pri: hello.router_priority,
                        nbr_ip: hello.header.router_id,
                        nbr_options: hello.options,
                        nbr_dr: hello.designated_router,
                        nbr_bdr: hello.backup_designated_router,
                        ..NeighborModel::blank(self.dead_interval, self.rxmt_interval)
                    },
                ),
                ..self
            },
        }
    }

    /// The interface after a Hello packet that came from the address
    /// `src_ip`, and what it asks for.
    ///
    /// The sender, known by its router identifier, becomes a neighbor if it
    /// is none yet. Its address is noted, and so is what it declares
    /// (priority, designated router, backup) is noted, and it takes the
    /// event that a Hello was received. If the packet lists this router, the
    /// neighbor takes the event of two-way communication; if not, that of
    /// one-way communication, and nothing more happens. A neighbor that
    /// declares itself designated router or backup while the interface waits
    /// makes the interface see a backup; else a neighbor whose declaration
    /// of itself as designated router or as backup has changed makes the
    /// interface see a change of neighbors.
    pub open spec fn hello_step(self, hello: HelloModel, src_ip: u32, config: Config) -> (
        InterfaceModel,
        Seq<ActionModel>,
    ) {
        let known = self.knowing(hello);
        let ip = src_ip;
        let i = neighbor_with_id(known.neighbor_list, hello.header.router_id)->0;
        let old = known.neighbor_list[i];
        let heard = NeighborModel {
            nbr_ip: ip,
            nbr_id: hello.header.router_id,
            nbr_dr: hello.designated_router,
            nbr_bdr: hello.backup_designated_router,
            nbr_pri: hello.router_priority,
            ..old
        }.step(NbrEvent::HelloReceived, false);
        if !hello.neighbors.contains(config.router_id) {
            (known.with_neighbor(i, heard.step(NbrEvent::OneWayReceived, false)), Seq::empty())
        } else {
            let seen = known.with_neighbor(
                i,
                heard.step(NbrEvent::TwoWayReceived, known.adjacency(ip)),
            );
            if (hello.designated_router == ip || hello.backup_designated_router == ip)
                && seen.state == InterfaceState::Waiting {
                seen.step(InterfaceEvent::BackupSeen)
            } else if ((old.nbr_dr == ip) != (hello.designated_router == ip)) || ((old.nbr_bdr
                == ip) != (hello.backup_designated_router == ip)) {
                seen.step(InterfaceEvent::NeighborChange)
            } else {
                (seen, Seq::empty())
            }
        }
    }

    /// The interface after a Database Description packet, and what it asks
    /// for: the neighbor that sent it takes it, and its answer goes out. A
    /// packet from a router that is no neighbor is left aside.
    pub open spec fn dbd_step(self, dbd: DbdModel, config: Config, lsdb: Seq<LsaHeader>) -> (
        InterfaceModel,
        Seq<ActionModel>,
    ) {
        match neighbor_with_id(self.neighbor_list, dbd.header.router_id) {
            None => (self, Seq::empty()),
            Some(i) => {
                let r = self.neighbor_list[i].dbd_step(
                    dbd,
                    config.router_id,
                    config.default_mtu,
                    lsdb,
                    self.adjacency(self.neighbor_list[i].nbr_ip),
                );
                (self.with_neighbor(i, r.0), dbd_actions(config, self.neighbor_list[i].nbr_ip, r.1))
            },
        }
    }

    /// The interface after a Link State Request packet, and what it asks
    /// for. `answers` is what the database holds of the advertisements that
    /// the packet asks for.
    ///
    /// A packet from a router that is no neighbor, or from a neighbor below
    /// `Exchange`, is left aside. If the database holds as many
    /// advertisements as were asked for, they are sent to the neighbor; if
    /// not, the neighbor has made a bad request.
    pub open spec fn lsr_step(self, lsr: LsrModel, config: Config, answers: Seq<LsaModel>) -> (
        InterfaceModel,
        Seq<ActionModel>,
    ) {
        match neighbor_with_id(self.neighbor_list, lsr.header.router_id) {
            None => (self, Seq::empty()),
            Some(i) => {
                let ip = self.neighbor_list[i].nbr_ip;
                if self.neighbor_list[i].state.rank() < NbrState::Exchange.rank() {
                    (self, Seq::empty())
                } else if answers.len() == lsr.requests.len() {
                    (self, seq![ActionModel::Send(ip, lsu_packet(config, answers))])
                } else {
                    (
                        self.with_neighbor(
                            i,
                            self.neighbor_list[i].step(NbrEvent::BadLSReq, self.adjacency(ip)),
                        ),
                        Seq::empty(),
                    )
                }
            },
        }
    }

    /// The interface with the identity of `h` taken from the retransmission
    /// list of every neighbor but the one at place `i`.
    pub open spec fn acknowledged_by_others(self, i: int, h: LsaHeader) -> InterfaceModel {
        InterfaceModel {
            neighbor_list: Seq::new(
                self.neighbor_list.len(),
                |j: int|
                    if j == i {
                        self.neighbor_list[j]
                    } else {
                        NeighborModel {
                            lsa_retransmission_list: without_identity(
                                self.neighbor_list[j].lsa_retransmission_list,
                                h,
                            ),
                            ..self.neighbor_list[j]
                        }
                    },
            ),
            ..self
        }
    }

    /// What the interface asks for about the advertisement `lsa` from the
    /// neighbor at `ip`, given what is to be done about it: the flooding to
    /// all routers of an advertisement that is accepted, the acknowledgment
    /// to the neighbor, and the sending back of the database's copy.
    pub open spec fn lsa_actions(
        config: Config,
        ip: u32,
        lsa: LsaModel,
        copy: Option<LsaModel>,
        out: LsuOutcome,
    ) -> Seq<ActionModel> {
        (if out.accept {
            seq![ActionModel::Send(ALL_SPF_ROUTERS, lsu_packet(config, seq![lsa]))]
        } else {
            Seq::empty()
        }) + (if out.ack {
            seq![ActionModel::Send(ip, lsack_packet(config, seq![lsa.header()]))]
        } else {
            Seq::empty()
        }) + (if out.reply && copy is Some {
            seq![ActionModel::Send(ip, lsu_packet(config, seq![copy->0]))]
        } else {
            Seq::empty()
        })
    }

    /// The interface after one advertisement of a Link State Update from the
    /// router `id`, what it asks for, and what is to be done about the
    /// advertisement: whether the database is to install it, and whether the
    /// rest of the packet is left aside. `copy` is the advertisement of the
    /// same identity that the database holds, and `recent` says whether that
    /// was installed less than `MIN_LS_ARRIVAL` seconds ago. From a router
    /// that is no neighbor the advertisement is left aside, and so is the
    /// rest of the packet.
    pub open spec fn lsa_step(
        self,
        id: u32,
        lsa: LsaModel,
        copy: Option<LsaModel>,
        recent: bool,
        config: Config,
    ) -> (InterfaceModel, Seq<ActionModel>, LsuOutcome) {
        match neighbor_with_id(self.neighbor_list, id) {
            None => (
                self,
                Seq::empty(),
                LsuOutcome { abort: true, ..LsuOutcome::dropped() },
            ),
            Some(i) => {
                let ip = self.neighbor_list[i].nbr_ip;
                let r = self.neighbor_list[i].lsu_step(lsa, copy, recent, self.adjacency(ip));
                let taken = self.with_neighbor(i, r.0);
                (
                    if r.1.accept {
                        taken.acknowledged_by_others(i, lsa.header())
                    } else {
                        taken
                    },
                    InterfaceModel::lsa_actions(config, ip, lsa, copy, r.1),
                    r.1,
                )
            },
        }
    }
}

/// Whether `list` holds `x`.
pub fn contains_u32(list: &Vec<u32>, x: u32) -> (has: bool)
    ensures
        has == list@.contains(x),
{
    let mut i: usize = 0;
    while i < list.len()
        invariant
            i <= list.len(),
            forall|j: int| 0 <= j < i ==> list@[j] != x,
        decreases list.len() - i,
    {
        if list[i] == x {
            return true;
        }
        i += 1;
    }
    false
}

impl Interface {
    /// Makes the sender of `hello` a neighbor if it is none yet, and gives
    /// its place.
    pub fn know(&mut self, hello: &Hello) -> (i: usize)
        ensures
            final(self)@ == old(self)@.knowing(hello@),
            neighbor_with_id(final(self)@.neighbor_list, hello@.header.router_id) == Some(
                i as int,
            ),
            i < final(self).neighbor_list@.len(),
    {
        let id = hello.header.router_id;
        match self.get_neighbor_by_id(id) {
            Some(i) => i,
            None => {
                let ghost before = self@.neighbor_list;
                let mut nbr = Neighbor::new(hello.clone(), self.dead_interval, self.rxmt_interval);
                nbr.nbr_id = id;
                let ghost model = nbr@;
                self.neighbor_list.push(nbr);
                proof {
                    assert(self@.neighbor_list =~= before.push(model));
                    assert(self@.neighbor_list.drop_last() =~= before);
                }
                self.neighbor_list.len() - 1
            },
        }
    }

    /// Takes a Hello packet that came from the address `src_ip`.
    #[verifier::rlimit(40)]
    pub fn handle_hello(&mut self, hello: Hello, src_ip: u32, config: &Config) -> (actions: Vec<
        Action,
    >)
        ensures
            final(self)@ == old(self)@.hello_step(hello@, src_ip, *config).0,
            action_models(actions@) == old(self)@.hello_step(hello@, src_ip, *config).1,
    {
        let ip = src_ip;
        let i = self.know(&hello);
        let ghost known = self@;
        let ghost list = self.neighbor_list@;
        assert(known.neighbor_list[i as int] == self.neighbor_list[i as int]@);
        let adjacency = self.decide_adjacency(ip);
        let two_way = contains_u32(&hello.neighbors, config.router_id);
        let nbr = &mut self.neighbor_list[i];
        let prev_dr = nbr.nbr_dr;
        let prev_bdr = nbr.nbr_bdr;
        nbr.nbr_ip = ip;
        nbr.nbr_id = hello.header.router_id;
        nbr.nbr_dr = hello.designated_router;
        nbr.nbr_bdr = hello.backup_designated_router;
        nbr.nbr_pri = hello.router_priority;
        nbr.handle_event(NbrEvent::HelloReceived, false);
        if two_way {
            nbr.handle_event(NbrEvent::TwoWayReceived, adjacency);
        } else {
            nbr.handle_event(NbrEvent::OneWayReceived, false);
        }
        proof {
            assert(self.neighbor_list@.len() == list.len());
            assert(self@.neighbor_list =~= known.neighbor_list.update(
                i as int,
                self.neighbor_list@[i as int]@,
            )) by {
                assert forall|j: int| 0 <= j < list.len() implies self@.neighbor_list[j]
                    == known.neighbor_list.update(i as int, self.neighbor_list@[i as int]@)[j] by {
                    if j != i {
                        assert(self.neighbor_list@[j] == list[j]);
                        assert(neighbor_models(list)[j] == known.neighbor_list[j]);
                    }
                }
            }
        }
        let none: Vec<Action> = Vec::new();
        assert(action_models(none@) =~= Seq::<ActionModel>::empty());
        if !two_way {
            none
        } else if (hello.designated_router == ip || hello.backup_designated_router == ip)
            && self.state == InterfaceState::Waiting {
            self.handle_event(InterfaceEvent::BackupSeen)
        } else if ((prev_dr == ip) != (hello.designated_router == ip)) || ((prev_bdr == ip) != (
        hello.backup_designated_router == ip)) {
            self.handle_event(InterfaceEvent::NeighborChange)
        } else {
            none
        }
    }

    /// Takes a Database Description packet. `lsdb` holds the headers of the
    /// advertisements in the database.
    pub fn handle_dbd(&mut self, dbd: DBDescription, config: &Config, lsdb: &Vec<LsaHeader>) -> (actions:
        Vec<Action>)
        ensures
            final(self)@ == old(self)@.dbd_step(dbd@, *config, lsdb@).0,
            action_models(actions@) == old(self)@.dbd_step(dbd@, *config, lsdb@).1,
    {
        match self.get_neighbor_by_id(dbd.header.router_id) {
            None => {
                let none: Vec<Action> = Vec::new();
                assert(action_models(none@) =~= Seq::<ActionModel>::empty());
                none
            },
            Some(i) => {
                let ghost before = self@;
                let ghost list = self.neighbor_list@;
                assert(before.neighbor_list[i as int] == self.neighbor_list[i as int]@);
                let nbr_ip = self.neighbor_list[i].nbr_ip;
                let adjacency = self.decide_adjacency(nbr_ip);
                let out = self.neighbor_list[i].handle_dbd(
                    dbd,
                    config.router_id,
                    config.default_mtu,
                    lsdb,
                    adjacency,
                );
                proof {
                    assert(self.neighbor_list@.len() == list.len());
                    assert(self@.neighbor_list =~= before.neighbor_list.update(
                        i as int,
                        self.neighbor_list@[i as int]@,
                    )) by {
                        assert forall|j: int| 0 <= j < list.len() implies self@.neighbor_list[j]
                            == before.neighbor_list.update(
                            i as int,
                            self.neighbor_list@[i as int]@,
                        )[j] by {
                            if j != i {
                                assert(self.neighbor_list@[j] == list[j]);
                                assert(neighbor_models(list)[j] == before.neighbor_list[j]);
                            }
                        }
                    }
                }
                self.send_dbd(config, nbr_ip, out)
            },
        }
    }

    /// Takes a Link State Request packet. `answers` is what the database
    /// holds of the advertisements that the packet asks for.
    pub fn handle_lsr(&mut self, lsr: LinkStateRequest, config: &Config, answers: Vec<Lsa>) -> (actions:
        Vec<Action>)
        ensures
            final(self)@ == old(self)@.lsr_step(lsr@, *config, lsa_models(answers@)).0,
            action_models(actions@) == old(self)@.lsr_step(lsr@, *config, lsa_models(answers@)).1,
    {
        let mut actions: Vec<Action> = Vec::new();
        assert(action_models(actions@) =~= Seq::<ActionModel>::empty());
        match self.get_neighbor_by_id(lsr.header.router_id) {
            None => {},
            Some(i) => {
                let ghost before = self@;
                let ghost list = self.neighbor_list@;
                assert(before.neighbor_list[i as int] == self.neighbor_list[i as int]@);
                let state = self.neighbor_list[i].state;
                let ip = self.neighbor_list[i].nbr_ip;
                if state == NbrState::Exchange || state == NbrState::Loading || state
                    == NbrState::Full {
                    if answers.len() == lsr.requests.len() {
                        let action = self.send_lsu(config, ip, answers);
                        let ghost model = action@;
                        actions.push(action);
                        assert(action_models(actions@) =~= seq![model]);
                    } else {
                        let adjacency = self.decide_adjacency(ip);
                        self.neighbor_list[i].handle_event(NbrEvent::BadLSReq, adjacency);
                        proof {
                            assert(self.neighbor_list@.len() == list.len());
                            assert(self@.neighbor_list =~= before.neighbor_list.update(
                                i as int,
                                self.neighbor_list@[i as int]@,
                            )) by {
                                assert forall|j: int|
                                    0 <= j < list.len() implies self@.neighbor_list[j]
                                    == before.neighbor_list.update(
                                    i as int,
                                    self.neighbor_list@[i as int]@,
                                )[j] by {
                                    if j != i {
                                        assert(self.neighbor_list@[j] == list[j]);
                                        assert(neighbor_models(list)[j]
                                            == before.neighbor_list[j]);
                                    }
                                }
                            }
                        }
                    }
                }
            },
        }
        actions
    }

    /// Takes the identity of `h` from the retransmission list of every
    /// neighbor but the one at place `i`.
    pub fn acknowledge_for_others(&mut self, i: usize, h: &LsaHeader)
        ensures
            final(self)@ == old(self)@.acknowledged_by_others(i as int, *h),
    {
        let ghost before = self@;
        let ghost want = before.acknowledged_by_others(i as int, *h).neighbor_list;
        let mut j: usize = 0;
        while j < self.neighbor_list.len()
            invariant
                j <= self.neighbor_list.len(),
                self@.neighbor_list.len() == before.neighbor_list.len(),
                before == old(self)@,
                want == before.acknowledged_by_others(i as int, *h).neighbor_list,
                self@ == (InterfaceModel { neighbor_list: self@.neighbor_list, ..before }),
                forall|k: int| 0 <= k < j ==> (#[trigger] self@.neighbor_list[k]) == want[k],
                forall|k: int|
                    j <= k < self.neighbor_list.len() ==> (#[trigger] self@.neighbor_list[k])
                        == before.neighbor_list[k],
            decreases self.neighbor_list.len() - j,
        {
            let ghost list = self.neighbor_list@;
            assert(self@.neighbor_list[j as int] == self.neighbor_list[j as int]@);
            if j != i {
                remove_identity(&mut self.neighbor_list[j].lsa_retransmission_list, h);
            }
            proof {
                assert(self.neighbor_list@.len() == list.len());
                assert forall|k: int| 0 <= k < j + 1 implies (#[trigger] self@.neighbor_list[k])
                    == want[k] by {
                    if k < j {
                        assert(self.neighbor_list@[k] == list[k]);
                        assert(neighbor_models(list)[k] == want[k]);
                    }
                }
                assert forall|k: int| j + 1 <= k < self.neighbor_list.len() implies (
                #[trigger] self@.neighbor_list[k]) == before.neighbor_list[k] by {
                    assert(self.neighbor_list@[k] == list[k]);
                    assert(neighbor_models(list)[k] == before.neighbor_list[k]);
                }
            }
            j += 1;
        }
        assert(self@.neighbor_list =~= want);
    }

    /// Takes one advertisement of a Link State Update from the router `id`.
    /// `copy` is the advertisement of the same identity that the database
    /// holds, if it holds one, and `recent` says whether that was installed
    /// less than `MIN_LS_ARRIVAL` seconds ago. Gives what the interface asks
    /// for, and what is to be done about the advertisement.
    #[verifier::rlimit(40)]
    pub fn handle_lsa(
        &mut self,
        id: u32,
        lsa: &Lsa,
        copy: Option<&Lsa>,
        recent: bool,
        config: &Config,
    ) -> (r: (Vec<Action>, LsuOutcome))
        requires
            copy matches Some(c) ==> c@.header().same_identity(lsa@.header()),
        ensures
            final(self)@ == old(self)@.lsa_step(
                id,
                lsa@,
                match copy {
                    Some(c) => Some(c@),
                    None => None,
                },
                recent,
                *config,
            ).0,
            action_models(r.0@) == old(self)@.lsa_step(
                id,
                lsa@,
                match copy {
                    Some(c) => Some(c@),
                    None => None,
                },
                recent,
                *config,
            ).1,
            r.1 == old(self)@.lsa_step(
                id,
                lsa@,
                match copy {
                    Some(c) => Some(c@),
                    None => None,
                },
                recent,
                *config,
            ).2,
    {
        let mut actions: Vec<Action> = Vec::new();
        assert(action_models(actions@) =~= Seq::<ActionModel>::empty());
        match self.get_neighbor_by_id(id) {
            None => (
                actions,
                LsuOutcome { ack: false, reply: false, accept: false, abort: true },
            ),
            Some(i) => {
                let ghost before = self@;
                let ghost list = self.neighbor_list@;
                assert(before.neighbor_list[i as int] == self.neighbor_list[i as int]@);
                let ip = self.neighbor_list[i].nbr_ip;
                let adjacency = self.decide_adjacency(ip);
                let out = self.neighbor_list[i].handle_lsa(lsa, copy, recent, adjacency);
                proof {
                    assert(self.neighbor_list@.len() == list.len());
                    assert(self@.neighbor_list =~= before.neighbor_list.update(
                        i as int,
                        self.neighbor_list@[i as int]@,
                    )) by {
                        assert forall|j: int| 0 <= j < list.len() implies self@.neighbor_list[j]
                            == before.neighbor_list.update(
                            i as int,
                            self.neighbor_list@[i as int]@,
                        )[j] by {
                            if j != i {
                                assert(self.neighbor_list@[j] == list[j]);
                                assert(neighbor_models(list)[j] == before.neighbor_list[j]);
                            }
                        }
                    }
                }
                let h = *lsa.get_hdr();
                if out.accept {
                    self.acknowledge_for_others(i, &h);
                    let mut one: Vec<Lsa> = Vec::new();
                    one.push(lsa.clone());
                    assert(lsa_models(one@) =~= seq![lsa@]);
                    let flood = self.flood_lsu(config, one);
                    let ghost m1 = flood@;
                    actions.push(flood);
                    assert(action_models(actions@) =~= seq![m1]);
                }
                if out.ack {
                    let ghost sofar = action_models(actions@);
                    let mut one: Vec<LsaHeader> = Vec::new();
                    one.push(h);
                    assert(one@ =~= seq![h]);
                    let ack = self.send_lsack(config, ip, one);
                    let ghost m = ack@;
                    actions.push(ack);
                    assert(action_models(actions@) =~= sofar + seq![m]);
                }
                if out.reply {
                    match copy {
                        Some(c) => {
                            let ghost sofar = action_models(actions@);
                            let mut one: Vec<Lsa> = Vec::new();
                            one.push(c.clone());
                            assert(lsa_models(one@) =~= seq![c@]);
                            let reply = self.send_lsu(config, ip, one);
                            let ghost m = reply@;
                            actions.push(reply);
                            assert(action_models(actions@) =~= sofar + seq![m]);
                        },
                        None => {},
                    }
                }
                (actions, out)
            },
        }
    }
}

} // verus!
