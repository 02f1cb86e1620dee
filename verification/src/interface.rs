//! One interface of the router: its state machine, its neighbors, and what
//! it asks the rest of the router to do.

use vstd::prelude::*;
use crate::config::Config;
use crate::database::{DatabaseRequestType, RequestModel};
use crate::election::{elect, election, Candidate, Elected};
use crate::lsa::{LsaRouterLink, RouterLinkModel, LINK_STUB, LINK_TRANSIT};
use crate::neighbor::{NbrEvent, NbrState, Neighbor, NeighborModel};
use crate::packets::{OSPFPacket, PacketModel};
use crate::timer::{Timer, TimerModel};

verus! {

/// The address that all routers of the protocol listen on: 224.0.0.5.
pub const ALL_SPF_ROUTERS: u32 = 0xE000_0005;

/// The kinds of network that an interface can be attached to.
#[derive(Debug, Clone, Copy, PartialEq, Eq, Structural)]
pub enum InterfaceType {
    P2P,
    Broadcast,
    NBMA,
    P2MP,
    Virtual,
}

/// The states of an interface.
#[derive(Debug, PartialEq, Eq, Structural, Clone, Copy)]
pub enum InterfaceState {
    Down,
    Loopback,
    Waiting,
    PointToPoint,
    DR,
    BDR,
    DROther,
}

/// The events that drive an interface's state machine.
#[derive(Debug, Clone, Copy, PartialEq, Eq, Structural)]
pub enum InterfaceEvent {
    InterfaceUp,
    InterfaceDown,
    UnloopInd,
    LoopInd,
    WaitTimer,
    BackupSeen,
    NeighborChange,
}

/// What an interface asks the rest of the router to do.
#[derive(Debug)]
pub enum Action {
    /// Hand the packet to the sender, to go from this interface to the
    /// given address.
    Send(u32, OSPFPacket),
    /// Put the request to the database, and flood the advertisement that it
    /// answers with.
    Originate(DatabaseRequestType),
}

/// What an interface asks for, as plain values.
pub enum ActionModel {
    Send(u32, PacketModel),
    Originate(RequestModel),
}

impl View for Action {
    type V = ActionModel;

    open spec fn view(&self) -> ActionModel {
        match self {
            Action::Send(dst, p) => ActionModel::Send(*dst, p@),
            Action::Originate(r) => ActionModel::Originate(r@),
        }
    }
}

/// The plain values of a list of actions.
pub open spec fn action_models(actions: Seq<Action>) -> Seq<ActionModel> {
    actions.map_values(|a: Action| a@)
}

/// The plain values of a list of neighbors.
pub open spec fn neighbor_models(list: Seq<Neighbor>) -> Seq<NeighborModel> {
    list.map_values(|n: Neighbor| n@)
}

/// One interface of the router.
#[derive(Debug)]
pub struct Interface {
    pub name: String,
    pub router_id: u32,
    pub int_type: InterfaceType,
    pub state: InterfaceState,
    pub addr: u32,
    pub mask: u32,
    pub area_id: u32,
    pub hello_interval: u32,
    pub dead_interval: u32,
    pub inf_transit_delay: u32,
    pub router_priority: u8,
    pub hello_timer: Timer,
    pub wait_timer: Timer,
    pub designated_router: u32,
    pub backup_designated_router: u32,
    pub neighbor_list: Vec<Neighbor>,
    pub int_output_cost: u32,
    pub rxmt_interval: u32,
    pub last_nbr_state: Vec<(u32, NbrState)>,
}

/// What an interface holds, as plain values.
pub struct InterfaceModel {
    pub name: Seq<char>,
    pub router_id: u32,
    pub int_type: InterfaceType,
    pub state: InterfaceState,
    pub addr: u32,
    pub mask: u32,
    pub area_id: u32,
    pub hello_interval: u32,
    pub dead_interval: u32,
    pub inf_transit_delay: u32,
    pub router_priority: u8,
    pub hello_timer: TimerModel,
    pub wait_timer: TimerModel,
    pub designated_router: u32,
    pub backup_designated_router: u32,
    pub neighbor_list: Seq<NeighborModel>,
    pub int_output_cost: u32,
    pub rxmt_interval: u32,
    pub last_nbr_state: Seq<(u32, NbrState)>,
}

impl View for Interface {
    type V = InterfaceModel;

    open spec fn view(&self) -> InterfaceModel {
        InterfaceModel {
            name: self.name@,
            router_id: self.router_id,
            int_type: self.int_type,
            state: self.state,
            addr: self.addr,
            mask: self.mask,
            area_id: self.area_id,
            hello_interval: self.hello_interval,
            dead_interval: self.dead_interval,
            inf_transit_delay: self.inf_transit_delay,
            router_priority: self.router_priority,
            hello_timer: self.hello_timer@,
            wait_timer: self.wait_timer@,
            designated_router: self.designated_router,
            backup_designated_router: self.backup_designated_router,
            neighbor_list: neighbor_models(self.neighbor_list@),
            int_output_cost: self.int_output_cost,
            rxmt_interval: self.rxmt_interval,
            last_nbr_state: self.last_nbr_state@,
        }
    }
}

/// The place of the first neighbor with address `ip`.
pub open spec fn neighbor_index(list: Seq<NeighborModel>, ip: u32) -> Option<int>
    decreases list.len(),
{
    if list.len() == 0 {
        None
    } else {
        match neighbor_index(list.drop_last(), ip) {
            Some(i) => Some(i),
            None => if list.last().nbr_ip == ip {
                Some(list.len() - 1)
            } else {
                None
            },
        }
    }
}

/// What `neighbor_index` finds is the first neighbor with the address.
pub proof fn lemma_neighbor_index(list: Seq<NeighborModel>, ip: u32)
    ensures
        match neighbor_index(list, ip) {
            Some(i) => 0 <= i < list.len() && list[i].nbr_ip == ip && forall|j: int|
                0 <= j < i ==> (#[trigger] list[j]).nbr_ip != ip,
            None => forall|j: int| 0 <= j < list.len() ==> (#[trigger] list[j]).nbr_ip != ip,
        },
    decreases list.len(),
{
    if list.len() > 0 {
        let init = list.drop_last();
        lemma_neighbor_index(init, ip);
        match neighbor_index(init, ip) {
            Some(i) => {
                assert forall|j: int| 0 <= j < i implies (#[trigger] list[j]).nbr_ip != ip by {
                    assert(init[j] == list[j]);
                }
                assert(init[i] == list[i]);
            },
            None => {
                assert forall|j: int| 0 <= j < list.len() - 1 implies (#[trigger] list[j]).nbr_ip
                    != ip by {
                    assert(init[j] == list[j]);
                }
            },
        }
    }
}

/// The place of the first neighbor with router identifier `id`.
pub open spec fn neighbor_with_id(list: Seq<NeighborModel>, id: u32) -> Option<int>
    decreases list.len(),
{
    if list.len() == 0 {
        None
    } else {
        match neighbor_with_id(list.drop_last(), id) {
            Some(i) => Some(i),
            None => if list.last().nbr_id == id {
                Some(list.len() - 1)
            } else {
                None
            },
        }
    }
}

/// What `neighbor_with_id` finds is the first neighbor with the identifier.
pub proof fn lemma_neighbor_with_id(list: Seq<NeighborModel>, id: u32)
    ensures
        match neighbor_with_id(list, id) {
            Some(i) => 0 <= i < list.len() && list[i].nbr_id == id && forall|j: int|
                0 <= j < i ==> (#[trigger] list[j]).nbr_id != id,
            None => forall|j: int| 0 <= j < list.len() ==> (#[trigger] list[j]).nbr_id != id,
        },
    decreases list.len(),
{
    if list.len() > 0 {
        let init = list.drop_last();
        lemma_neighbor_with_id(init, id);
        match neighbor_with_id(init, id) {
            Some(i) => {
                assert forall|j: int| 0 <= j < i implies (#[trigger] list[j]).nbr_id != id by {
                    assert(init[j] == list[j]);
                }
                assert(init[i] == list[i]);
            },
            None => {
                assert forall|j: int| 0 <= j < list.len() - 1 implies (#[trigger] list[j]).nbr_id
                    != id by {
                    assert(init[j] == list[j]);
                }
            },
        }
    }
}

/// What the neighbors in state `TwoWay` or beyond bring to an election, in
/// the order of the neighbors.
pub open spec fn candidates_of(list: Seq<NeighborModel>) -> Seq<Candidate>
    decreases list.len(),
{
    if list.len() == 0 {
        Seq::empty()
    } else if list.last().state.rank() >= NbrState::TwoWay.rank() {
        candidates_of(list.drop_last()).push(
            Candidate {
                ip: list.last().nbr_ip,
                id: list.last().nbr_id,
                pri: list.last().nbr_pri,
                dr: list.last().nbr_dr,
                bdr: list.last().nbr_bdr,
            },
        )
    } else {
        candidates_of(list.drop_last())
    }
}

/// The identifiers of the neighbors in state `Full`, in the order of the
/// neighbors.
pub open spec fn full_neighbors(list: Seq<NeighborModel>) -> Seq<u32>
    decreases list.len(),
{
    if list.len() == 0 {
        Seq::empty()
    } else if list.last().state == NbrState::Full {
        full_neighbors(list.drop_last()).push(list.last().nbr_id)
    } else {
        full_neighbors(list.drop_last())
    }
}

impl InterfaceModel {
    /// An adjacency is to be formed with the neighbor at `nbr_ip`: always on
    /// a point-to-point, point-to-multipoint or virtual link; on a broadcast
    /// or NBMA network only if this router or the neighbor is the designated
    /// router or its backup.
    pub open spec fn adjacency(self, nbr_ip: u32) -> bool {
        match self.int_type {
            InterfaceType::Broadcast | InterfaceType::NBMA => self.addr == self.designated_router
                || self.addr == self.backup_designated_router || nbr_ip == self.designated_router
                || nbr_ip == self.backup_designated_router,
            _ => true,
        }
    }

    /// What this router brings to an election.
    pub open spec fn me(self) -> Candidate {
        Candidate {
            ip: self.addr,
            id: self.router_id,
            pri: self.router_priority,
            dr: self.designated_router,
            bdr: self.backup_designated_router,
        }
    }

    /// What an election on this interface decides.
    pub open spec fn elected(self) -> Elected {
        election(candidates_of(self.neighbor_list), self.me())
    }

    /// The neighbor that is the designated router is in state `Full`.
    pub open spec fn dr_is_full(self) -> bool {
        match neighbor_index(self.neighbor_list, self.designated_router) {
            Some(i) => self.neighbor_list[i].state == NbrState::Full,
            None => false,
        }
    }

    /// The link that this router advertises for the interface, if the
    /// interface is not down: a link to the transit network where this
    /// router is the designated router or is fully adjacent to it, else a
    /// link to a stub network.
    pub open spec fn router_link(self) -> Option<RouterLinkModel> {
        if self.state == InterfaceState::Down {
            None
        } else if self.state == InterfaceState::DR || self.dr_is_full() {
            Some(
                RouterLinkModel {
                    link_id: self.designated_router,
                    link_data: self.addr,
                    link_type: LINK_TRANSIT,
                    tos_num: 0,
                    metric: (self.int_output_cost % 0x1_0000) as u16,
                    tos_list: Seq::empty(),
                },
            )
        } else {
            Some(
                RouterLinkModel {
                    link_id: self.addr & self.mask,
                    link_data: self.mask,
                    link_type: LINK_STUB,
                    tos_num: 0,
                    metric: (self.int_output_cost % 0x1_0000) as u16,
                    tos_list: Seq::empty(),
                },
            )
        }
    }

    /// The request to originate the router advertisement anew, if the
    /// interface is not down.
    pub open spec fn router_lsa_actions(self) -> Seq<ActionModel> {
        match self.router_link() {
            Some(link) => seq![ActionModel::Originate(RequestModel::GenRouterLsa(link, self.addr))],
            None => Seq::empty(),
        }
    }

    /// The request to originate the network advertisement of the
    /// interface's network, if a neighbor is in state `Full`.
    pub open spec fn network_lsa_actions(self) -> Seq<ActionModel> {
        if full_neighbors(self.neighbor_list).len() == 0 {
            Seq::empty()
        } else {
            seq![
                ActionModel::Originate(
                    RequestModel::GenNetworkLsa(
                        self.addr,
                        self.mask,
                        full_neighbors(self.neighbor_list),
                    ),
                ),
            ]
        }
    }

    /// The interface with every neighbor having taken `event`.
    pub open spec fn with_all(self, event: NbrEvent) -> InterfaceModel {
        InterfaceModel {
            neighbor_list: Seq::new(
                self.neighbor_list.len(),
                |i: int| self.neighbor_list[i].step(event, self.adjacency(self.neighbor_list[i].nbr_ip)),
            ),
            ..self
        }
    }

    /// The interface after an election, and what it asks for.
    ///
    /// The interface takes the state that the outcome gives this router.
    /// Where the designated router or the backup has changed, the new ones
    /// are noted, every neighbor is told to look at its adjacency again, and
    /// a router that is the designated router now originates the network's
    /// advertisement.
    pub open spec fn after_election(self) -> (InterfaceModel, Seq<ActionModel>) {
        let r = self.elected();
        let state = if r.dr == self.addr {
            InterfaceState::DR
        } else if r.bdr == self.addr {
            InterfaceState::BDR
        } else {
            InterfaceState::DROther
        };
        if r.dr != self.designated_router || r.bdr != self.backup_designated_router {
            let noted = InterfaceModel {
                state,
                designated_router: r.dr,
                backup_designated_router: r.bdr,
                ..self
            };
            (
                noted.with_all(NbrEvent::AdjOK),
                if r.dr == self.addr {
                    noted.network_lsa_actions()
                } else {
                    Seq::empty()
                },
            )
        } else {
            (InterfaceModel { state, ..self }, Seq::empty())
        }
    }

    /// The interface with its timers stopped and without neighbors.
    pub open spec fn closed(self) -> InterfaceModel {
        InterfaceModel {
            hello_timer: self.hello_timer.stopped(),
            wait_timer: self.wait_timer.stopped(),
            neighbor_list: Seq::empty(),
            last_nbr_state: Seq::empty(),
            ..self
        }
    }

    /// The interface after `event`, and what it asks for.
    ///
    /// Coming up, the interface waits: the wait timer starts, the hello
    /// timer is set to fire at once, and the router advertisement is
    /// originated. Going down or into loopback closes the interface; out of
    /// loopback it is down. When the wait is over, a backup is seen or a
    /// neighbor has changed, the election is held and the router
    /// advertisement is originated.
    pub open spec fn step(self, event: InterfaceEvent) -> (InterfaceModel, Seq<ActionModel>) {
        match event {
            InterfaceEvent::InterfaceUp => {
                let up = InterfaceModel {
                    state: InterfaceState::Waiting,
                    wait_timer: self.wait_timer.started(),
                    hello_timer: self.hello_timer.started_imm(),
                    ..self
                };
                (up, up.router_lsa_actions())
            },
            InterfaceEvent::InterfaceDown => (
                InterfaceModel { state: InterfaceState::Down, ..self }.closed(),
                Seq::empty(),
            ),
            InterfaceEvent::UnloopInd => (
                InterfaceModel { state: InterfaceState::Down, ..self },
                Seq::empty(),
            ),
            InterfaceEvent::LoopInd => (
                InterfaceModel { state: InterfaceState::Loopback, ..self }.closed(),
                Seq::empty(),
            ),
            InterfaceEvent::WaitTimer | InterfaceEvent::BackupSeen
            | InterfaceEvent::NeighborChange => {
                let held = self.after_election();
                (held.0, held.1 + held.0.router_lsa_actions())
            },
        }
    }

    /// The states of the neighbors by address, in the order of the
    /// neighbors.
    pub open spec fn nbr_states(self) -> Seq<(u32, NbrState)> {
        Seq::new(
            self.neighbor_list.len(),
            |i: int| (self.neighbor_list[i].nbr_ip, self.neighbor_list[i].state),
        )
    }

    /// A neighbor has reached or left state `Full` since the states were
    /// last noted.
    pub open spec fn full_changed(self) -> bool {
        exists|k: int| 0 <= k < self.last_nbr_state.len() && #[trigger] self.entry_full(k)
    }

    /// The neighbor of entry `k` of the states last noted was in state
    /// `Full` then and is not now, or the other way round. A neighbor that
    /// is gone is not in state `Full`.
    pub open spec fn entry_full(self, k: int) -> bool {
        (self.last_nbr_state[k].1 == NbrState::Full) != match neighbor_index(
            self.neighbor_list,
            self.last_nbr_state[k].0,
        ) {
            Some(i) => self.neighbor_list[i].state == NbrState::Full,
            None => false,
        }
    }

    /// Entry `k` of the states last noted does not stand as it is: the
    /// neighbor is gone, or has gained or lost two-way communication.
    pub open spec fn entry_changed(self, k: int) -> bool {
        match neighbor_index(self.neighbor_list, self.last_nbr_state[k].0) {
            Some(i) => (self.last_nbr_state[k].1.rank() >= NbrState::TwoWay.rank()) != (
            self.neighbor_list[i].state.rank() >= NbrState::TwoWay.rank()),
            None => true,
        }
    }

    /// The neighbors have changed since their states were last noted: a
    /// noted neighbor is gone or has gained or lost two-way communication,
    /// or the number of neighbors is another.
    pub open spec fn neighbors_changed(self) -> bool {
        (exists|k: int| 0 <= k < self.last_nbr_state.len() && #[trigger] self.entry_changed(k))
            || self.last_nbr_state.len() != self.neighbor_list.len()
    }

    /// What the interface asks for when a neighbor has reached or left state
    /// `Full`: the router advertisement and, as designated router, the
    /// network advertisement are originated anew.
    pub open spec fn full_actions(self) -> Seq<ActionModel> {
        if self.full_changed() {
            self.router_lsa_actions() + if self.state == InterfaceState::DR {
                self.network_lsa_actions()
            } else {
                Seq::empty()
            }
        } else {
            Seq::empty()
        }
    }
}

impl Interface {
    /// An interface in state `Down` with the given name, kind, address and
    /// mask, the router's identifier, the intervals and the priority taken
    /// from the configuration.
    pub fn from(name: String, int_type: InterfaceType, addr: u32, mask: u32, config: &Config) -> (i:
        Interface)
        ensures
            i@ == (InterfaceModel {
                name: name@,
                router_id: config.router_id,
                int_type,
                state: InterfaceState::Down,
                addr,
                mask,
                area_id: config.area_id,
                hello_interval: config.hello_interval,
                dead_interval: config.dead_interval,
                inf_transit_delay: config.inf_transit_delay,
                router_priority: config.router_priority,
                hello_timer: TimerModel::idle(config.hello_interval),
                wait_timer: TimerModel::idle(config.dead_interval),
                designated_router: 0,
                backup_designated_router: 0,
                neighbor_list: Seq::empty(),
                int_output_cost: 1,
                rxmt_interval: config.rxmt_interval,
                last_nbr_state: Seq::empty(),
            }),
    {
        let i = Interface {
            name,
            router_id: config.router_id,
            int_type,
            state: InterfaceState::Down,
            addr,
            mask,
            area_id: config.area_id,
            hello_interval: config.hello_interval,
            dead_interval: config.dead_interval,
            inf_transit_delay: config.inf_transit_delay,
            router_priority: config.router_priority,
            hello_timer: Timer::new(config.hello_interval),
            wait_timer: Timer::new(config.dead_interval),
            designated_router: 0,
            backup_designated_router: 0,
            neighbor_list: Vec::new(),
            int_output_cost: 1,
            rxmt_interval: config.rxmt_interval,
            last_nbr_state: Vec::new(),
        };
        assert(i@.neighbor_list =~= Seq::empty());
        assert(i@.last_nbr_state =~= Seq::empty());
        i
    }

    /// Whether an adjacency is to be formed with the neighbor at `nbr_ip`.
    pub fn decide_adjacency(&self, nbr_ip: u32) -> (adj: bool)
        ensures
            adj == self@.adjacency(nbr_ip),
    {
        match self.int_type {
            InterfaceType::Broadcast | InterfaceType::NBMA => self.addr == self.designated_router
                || self.addr == self.backup_designated_router || nbr_ip == self.designated_router
                || nbr_ip == self.backup_designated_router,
            _ => true,
        }
    }

    /// Stops the timers and forgets the neighbors.
    pub fn reset_and_close(&mut self)
        ensures
            final(self)@ == old(self)@.closed(),
    {
        self.hello_timer.stop();
        self.wait_timer.stop();
        self.neighbor_list.clear();
        self.last_nbr_state.clear();
        assert(self@.neighbor_list =~= Seq::empty());
        assert(self@.last_nbr_state =~= Seq::empty());
    }

    /// The place of the first neighbor with address `ip`.
    pub fn get_neighbor_index(&self, ip: u32) -> (at: Option<usize>)
        ensures
            match at {
                Some(i) => neighbor_index(self@.neighbor_list, ip) == Some(i as int) && i
                    < self.neighbor_list@.len(),
                None => neighbor_index(self@.neighbor_list, ip) is None,
            },
    {
        let ghost list = self@.neighbor_list;
        let mut i: usize = 0;
        while i < self.neighbor_list.len()
            invariant
                i <= self.neighbor_list.len(),
                list == self@.neighbor_list,
                forall|j: int| 0 <= j < i ==> (#[trigger] list[j]).nbr_ip != ip,
            decreases self.neighbor_list.len() - i,
        {
            assert(list[i as int] == self.neighbor_list[i as int]@);
            if self.neighbor_list[i].nbr_ip == ip {
                proof {
                    lemma_neighbor_index(list, ip);
                    match neighbor_index(list, ip) {
                        Some(p) => {
                            if p < i {
                                assert(list[p].nbr_ip != ip);
                            }
                        },
                        None => {
                            assert(list[i as int].nbr_ip != ip);
                        },
                    }
                }
                return Some(i);
            }
            i += 1;
        }
        proof {
            lemma_neighbor_index(list, ip);
            match neighbor_index(list, ip) {
                Some(p) => {
                    assert(list[p].nbr_ip != ip);
                },
                None => {},
            }
        }
        None
    }

    /// The place of the first neighbor with router identifier `id`.
    pub fn get_neighbor_by_id(&self, id: u32) -> (at: Option<usize>)
        ensures
            match at {
                Some(i) => neighbor_with_id(self@.neighbor_list, id) == Some(i as int) && i
                    < self.neighbor_list@.len(),
                None => neighbor_with_id(self@.neighbor_list, id) is None,
            },
    {
        let ghost list = self@.neighbor_list;
        let mut i: usize = 0;
        while i < self.neighbor_list.len()
            invariant
                i <= self.neighbor_list.len(),
                list == self@.neighbor_list,
                forall|j: int| 0 <= j < i ==> (#[trigger] list[j]).nbr_id != id,
            decreases self.neighbor_list.len() - i,
        {
            assert(list[i as int] == self.neighbor_list[i as int]@);
            if self.neighbor_list[i].nbr_id == id {
                proof {
                    lemma_neighbor_with_id(list, id);
                    match neighbor_with_id(list, id) {
                        Some(p) => {
                            if p < i {
                                assert(list[p].nbr_id != id);
                            }
                        },
                        None => {
                            assert(list[i as int].nbr_id != id);
                        },
                    }
                }
                return Some(i);
            }
            i += 1;
        }
        proof {
            lemma_neighbor_with_id(list, id);
            match neighbor_with_id(list, id) {
                Some(p) => {
                    assert(list[p].nbr_id != id);
                },
                None => {},
            }
        }
        None
    }

    /// Notes the states of the neighbors.
    pub fn update_nbr_states(&mut self)
        ensures
            final(self)@ == (InterfaceModel {
                last_nbr_state: old(self)@.nbr_states(),
                ..old(self)@
            }),
    {
        let ghost want = self@.nbr_states();
        let mut noted: Vec<(u32, NbrState)> = Vec::new();
        let mut i: usize = 0;
        while i < self.neighbor_list.len()
            invariant
                i <= self.neighbor_list.len(),
                self@ == old(self)@,
                want == self@.nbr_states(),
                noted@ == want.take(i as int),
            decreases self.neighbor_list.len() - i,
        {
            assert(self@.neighbor_list[i as int] == self.neighbor_list[i as int]@);
            noted.push((self.neighbor_list[i].nbr_ip, self.neighbor_list[i].state));
            i += 1;
            assert(noted@ =~= want.take(i as int));
        }
        assert(want.take(i as int) =~= want);
        self.last_nbr_state = noted;
    }

    /// What the neighbors in state `TwoWay` or beyond bring to an election.
    pub fn candidates(&self) -> (cands: Vec<Candidate>)
        ensures
            cands@ == candidates_of(self@.neighbor_list),
    {
        let ghost list = self@.neighbor_list;
        let mut cands: Vec<Candidate> = Vec::new();
        let mut i: usize = 0;
        assert(list.take(0) =~= Seq::<NeighborModel>::empty());
        while i < self.neighbor_list.len()
            invariant
                i <= self.neighbor_list.len(),
                list == self@.neighbor_list,
                cands@ == candidates_of(list.take(i as int)),
            decreases self.neighbor_list.len() - i,
        {
            let nbr = &self.neighbor_list[i];
            proof {
                let next = list.take(i + 1);
                assert(next.drop_last() =~= list.take(i as int));
                assert(next.last() == nbr@);
            }
            if nbr.state.have_two_way_comm() {
                cands.push(
                    Candidate {
                        ip: nbr.nbr_ip,
                        id: nbr.nbr_id,
                        pri: nbr.nbr_pri,
                        dr: nbr.nbr_dr,
                        bdr: nbr.nbr_bdr,
                    },
                );
            }
            i += 1;
        }
        assert(list.take(i as int) =~= list);
        cands
    }

    /// The identifiers of the neighbors in state `Full`.
    pub fn full_neighbor_ids(&self) -> (ids: Vec<u32>)
        ensures
            ids@ == full_neighbors(self@.neighbor_list),
    {
        let ghost list = self@.neighbor_list;
        let mut ids: Vec<u32> = Vec::new();
        let mut i: usize = 0;
        assert(list.take(0) =~= Seq::<NeighborModel>::empty());
        while i < self.neighbor_list.len()
            invariant
                i <= self.neighbor_list.len(),
                list == self@.neighbor_list,
                ids@ == full_neighbors(list.take(i as int)),
            decreases self.neighbor_list.len() - i,
        {
            let nbr = &self.neighbor_list[i];
            proof {
                let next = list.take(i + 1);
                assert(next.drop_last() =~= list.take(i as int));
                assert(next.last() == nbr@);
            }
            if nbr.state == NbrState::Full {
                ids.push(nbr.nbr_id);
            }
            i += 1;
        }
        assert(list.take(i as int) =~= list);
        ids
    }

    /// Has every neighbor take `event`.
    pub fn tell_all(&mut self, event: NbrEvent)
        ensures
            final(self)@ == old(self)@.with_all(event),
    {
        let ghost before = self@;
        let ghost want = before.with_all(event).neighbor_list;
        let mut i: usize = 0;
        while i < self.neighbor_list.len()
            invariant
                i <= self.neighbor_list.len(),
                self@.neighbor_list.len() == before.neighbor_list.len(),
                before == old(self)@,
                want == before.with_all(event).neighbor_list,
                self@ == (InterfaceModel { neighbor_list: self@.neighbor_list, ..before }),
                forall|j: int| 0 <= j < i ==> (#[trigger] self@.neighbor_list[j]) == want[j],
                forall|j: int|
                    i <= j < self.neighbor_list.len() ==> (#[trigger] self@.neighbor_list[j])
                        == before.neighbor_list[j],
            decreases self.neighbor_list.len() - i,
        {
            let ghost list = self.neighbor_list@;
            assert(self@.neighbor_list[i as int] == self.neighbor_list[i as int]@);
            let adjacency = self.decide_adjacency(self.neighbor_list[i].nbr_ip);
            assert(adjacency == before.adjacency(before.neighbor_list[i as int].nbr_ip));
            self.neighbor_list[i].handle_event(event, adjacency);
            proof {
                assert(self.neighbor_list@.len() == list.len());
                assert forall|j: int| 0 <= j < i + 1 implies (#[trigger] self@.neighbor_list[j])
                    == want[j] by {
                    if j < i {
                        assert(self.neighbor_list@[j] == list[j]);
                        assert(neighbor_models(list)[j] == want[j]);
                    }
                }
                assert forall|j: int| i + 1 <= j < self.neighbor_list.len() implies (
                #[trigger] self@.neighbor_list[j]) == before.neighbor_list[j] by {
                    assert(self.neighbor_list@[j] == list[j]);
                    assert(neighbor_models(list)[j] == before.neighbor_list[j]);
                }
            }
            i += 1;
        }
        assert(self@.neighbor_list =~= want);
    }

    /// The link that this router advertises for the interface.
    pub fn router_link(&self) -> (link: Option<LsaRouterLink>)
        ensures
            match link {
                Some(l) => self@.router_link() == Some(l@),
                None => self@.router_link() is None,
            },
    {
        if self.state == InterfaceState::Down {
            return None;
        }
        let dr_full = match self.get_neighbor_index(self.designated_router) {
            Some(i) => {
                assert(self@.neighbor_list[i as int] == self.neighbor_list[i as int]@);
                self.neighbor_list[i].state == NbrState::Full
            },
            None => false,
        };
        let mut link = LsaRouterLink::new((self.int_output_cost % 0x1_0000) as u16);
        if self.state == InterfaceState::DR || dr_full {
            link.link_type = LINK_TRANSIT;
            link.link_id = self.designated_router;
            link.link_data = self.addr;
        } else {
            link.link_type = LINK_STUB;
            link.link_id = self.addr & self.mask;
            link.link_data = self.mask;
        }
        Some(link)
    }

    /// The request to originate the router advertisement anew, if the
    /// interface is not down.
    pub fn query_gen_router_lsa(&self) -> (actions: Vec<Action>)
        ensures
            action_models(actions@) == self@.router_lsa_actions(),
    {
        let mut actions: Vec<Action> = Vec::new();
        match self.router_link() {
            Some(link) => {
                actions.push(Action::Originate(DatabaseRequestType::GenRouterLsa(link, self.addr)));
            },
            None => {},
        }
        assert(action_models(actions@) =~= self@.router_lsa_actions());
        actions
    }

    /// The request to originate the network advertisement of the
    /// interface's network, if a neighbor is in state `Full`.
    pub fn query_gen_network_lsa(&self) -> (actions: Vec<Action>)
        ensures
            action_models(actions@) == self@.network_lsa_actions(),
    {
        let mut actions: Vec<Action> = Vec::new();
        let ids = self.full_neighbor_ids();
        if ids.len() > 0 {
            actions.push(
                Action::Originate(DatabaseRequestType::GenNetworkLsa(self.addr, self.mask, ids)),
            );
        }
        assert(action_models(actions@) =~= self@.network_lsa_actions());
        actions
    }

    /// Holds the election of the designated router and its backup. After
    /// it the interface is in state `DR` exactly if it holds itself as the
    /// designated router.
    pub fn elect_dr_bdr(&mut self) -> (actions: Vec<Action>)
        ensures
            final(self)@ == old(self)@.after_election().0,
            action_models(actions@) == old(self)@.after_election().1,
            final(self).state == InterfaceState::DR <==> final(self).designated_router
                == final(self).addr,
    {
        let cands = self.candidates();
        let me = Candidate {
            ip: self.addr,
            id: self.router_id,
            pri: self.router_priority,
            dr: self.designated_router,
            bdr: self.backup_designated_router,
        };
        let r = elect(&cands, me);
        self.state = if r.dr == self.addr {
            InterfaceState::DR
        } else if r.bdr == self.addr {
            InterfaceState::BDR
        } else {
            InterfaceState::DROther
        };
        if r.dr != self.designated_router || r.bdr != self.backup_designated_router {
            self.designated_router = r.dr;
            self.backup_designated_router = r.bdr;
            let actions = if r.dr == self.addr {
                self.query_gen_network_lsa()
            } else {
                let none: Vec<Action> = Vec::new();
                assert(action_models(none@) =~= Seq::<ActionModel>::empty());
                none
            };
            self.tell_all(NbrEvent::AdjOK);
            actions
        } else {
            let none: Vec<Action> = Vec::new();
            assert(action_models(none@) =~= Seq::<ActionModel>::empty());
            none
        }
    }

    /// Takes `event` and gives what the interface asks for.
    pub fn handle_event(&mut self, event: InterfaceEvent) -> (actions: Vec<Action>)
        requires
            event == InterfaceEvent::InterfaceUp ==> old(self).state == InterfaceState::Down,
            event == InterfaceEvent::UnloopInd ==> old(self).state == InterfaceState::Loopback,
        ensures
            final(self)@ == old(self)@.step(event).0,
            action_models(actions@) == old(self)@.step(event).1,
    {
        match event {
            InterfaceEvent::InterfaceUp => {
                self.state = InterfaceState::Waiting;
                self.wait_timer.start();
                self.hello_timer.start_imm();
                self.query_gen_router_lsa()
            },
            InterfaceEvent::InterfaceDown => {
                self.state = InterfaceState::Down;
                self.reset_and_close();
                let none: Vec<Action> = Vec::new();
                assert(action_models(none@) =~= Seq::<ActionModel>::empty());
                none
            },
            InterfaceEvent::UnloopInd => {
                self.state = InterfaceState::Down;
                let none: Vec<Action> = Vec::new();
                assert(action_models(none@) =~= Seq::<ActionModel>::empty());
                none
            },
            InterfaceEvent::LoopInd => {
                self.state = InterfaceState::Loopback;
                self.reset_and_close();
                let none: Vec<Action> = Vec::new();
                assert(action_models(none@) =~= Seq::<ActionModel>::empty());
                none
            },
            InterfaceEvent::WaitTimer | InterfaceEvent::BackupSeen
            | InterfaceEvent::NeighborChange => {
                let mut actions = self.elect_dr_bdr();
                let ghost first = action_models(actions@);
                let mut more = self.query_gen_router_lsa();
                let ghost second = action_models(more@);
                actions.append(&mut more);
                assert(action_models(actions@) =~= first + second);
                actions
            },
        }
    }
}

} // verus!
