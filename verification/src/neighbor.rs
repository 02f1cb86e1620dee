//! The state machine of one neighbor.

use vstd::prelude::*;
use crate::lsa::LsaHeader;
use crate::packets::{DBDescription, DbdModel, Hello};
use crate::timer::{lemma_may_show, Timer, TimerModel};

verus! {

/// The states of a neighbor, from no contact to full adjacency.
#[derive(Debug, PartialEq, Eq, Structural, Clone, Copy)]
pub enum NbrState {
    Down,
    Attempt,
    Init,
    TwoWay,
    ExStart,
    Exchange,
    Loading,
    Full,
}

impl NbrState {
    /// The place of the state in the order from `Down` (0) to `Full` (7).
    pub open spec fn rank(self) -> int {
        match self {
            NbrState::Down => 0,
            NbrState::Attempt => 1,
            NbrState::Init => 2,
            NbrState::TwoWay => 3,
            NbrState::ExStart => 4,
            NbrState::Exchange => 5,
            NbrState::Loading => 6,
            NbrState::Full => 7,
        }
    }

    /// Whether the state is `Down` or `Attempt`.
    pub fn lower_than_init(&self) -> (lower: bool)
        ensures
            lower == (self.rank() < NbrState::Init.rank()),
    {
        match self {
            NbrState::Down | NbrState::Attempt => true,
            _ => false,
        }
    }

    /// Whether the state is `ExStart` or beyond.
    pub fn higher_than_two_way(&self) -> (higher: bool)
        ensures
            higher == (self.rank() > NbrState::TwoWay.rank()),
    {
        match self {
            NbrState::ExStart | NbrState::Exchange | NbrState::Loading | NbrState::Full => true,
            _ => false,
        }
    }

    /// Whether the state is `TwoWay` or beyond: both routers have seen each
    /// other.
    pub fn have_two_way_comm(&self) -> (two_way: bool)
        ensures
            two_way == (self.rank() >= NbrState::TwoWay.rank()),
    {
        match self {
            NbrState::Down | NbrState::Attempt | NbrState::Init => false,
            _ => true,
        }
    }

    /// Whether going from this state to `new_state` gains or loses two-way
    /// communication.
    pub fn two_way_comm_status_changed(&self, new_state: NbrState) -> (changed: bool)
        ensures
            changed == ((self.rank() >= NbrState::TwoWay.rank()) != (new_state.rank()
                >= NbrState::TwoWay.rank())),
    {
        self.have_two_way_comm() != new_state.have_two_way_comm()
    }
}

/// The events that drive a neighbor's state machine.
#[derive(Debug, Clone, Copy, PartialEq, Eq, Structural)]
pub enum NbrEvent {
    Start,
    HelloReceived,
    OneWayReceived,
    TwoWayReceived,
    NegotiationDone,
    ExchangeDone,
    BadLSReq,
    LoadingDone,
    AdjOK,
    SeqNumberMismatch,
    SeqNumberMatch,
    KillNbr,
    InactivityTimer,
    LLDown,
}

/// One neighbor on an interface.
#[derive(Debug)]
pub struct Neighbor {
    pub state: NbrState,
    pub inactivity_timer: Timer,
    pub exstart_rxmt_timer: Timer,
    pub mst_exch_timer: Timer,
    pub lsr_rxmt_timer: Timer,
    pub nbr_is_master: bool,
    pub dd_seq_number: u32,
    pub last_rcv_dbd: Option<DBDescription>,
    pub last_sent_dbd: Option<(u8, u32, Vec<LsaHeader>)>,
    pub nbr_id: u32,
    pub nbr_pri: u8,
    pub nbr_ip: u32,
    pub nbr_options: u8,
    pub nbr_dr: u32,
    pub nbr_bdr: u32,
    pub lsa_retransmission_list: Vec<LsaHeader>,
    pub db_summary_list: Vec<LsaHeader>,
    pub link_state_req_list: Vec<LsaHeader>,
}

/// What a neighbor holds, as plain values.
pub struct NeighborModel {
    pub state: NbrState,
    pub inactivity_timer: TimerModel,
    pub exstart_rxmt_timer: TimerModel,
    pub mst_exch_timer: TimerModel,
    pub lsr_rxmt_timer: TimerModel,
    pub nbr_is_master: bool,
    pub dd_seq_number: u32,
    pub last_rcv_dbd: Option<DbdModel>,
    pub last_sent_dbd: Option<(u8, u32, Seq<LsaHeader>)>,
    pub nbr_id: u32,
    pub nbr_pri: u8,
    pub nbr_ip: u32,
    pub nbr_options: u8,
    pub nbr_dr: u32,
    pub nbr_bdr: u32,
    pub lsa_retransmission_list: Seq<LsaHeader>,
    pub db_summary_list: Seq<LsaHeader>,
    pub link_state_req_list: Seq<LsaHeader>,
}

impl NeighborModel {
    /// A neighbor in state `Down` that nothing is known of but the two
    /// intervals of its timers.
    pub open spec fn blank(inactivity_interval: u32, rxmt_interval: u32) -> NeighborModel {
        NeighborModel {
            state: NbrState::Down,
            inactivity_timer: TimerModel::idle(inactivity_interval),
            exstart_rxmt_timer: TimerModel::idle(rxmt_interval),
            mst_exch_timer: TimerModel::idle(rxmt_interval),
            lsr_rxmt_timer: TimerModel::idle(rxmt_interval),
            nbr_is_master: false,
            dd_seq_number: 0,
            last_rcv_dbd: None,
            last_sent_dbd: None,
            nbr_id: 0,
            nbr_pri: 0,
            nbr_ip: 0,
            nbr_options: 0,
            nbr_dr: 0,
            nbr_bdr: 0,
            lsa_retransmission_list: Seq::empty(),
            db_summary_list: Seq::empty(),
            link_state_req_list: Seq::empty(),
        }
    }

    /// The neighbor with its three lists of advertisements emptied.
    pub open spec fn cleared(self) -> NeighborModel {
        NeighborModel {
            lsa_retransmission_list: Seq::empty(),
            db_summary_list: Seq::empty(),
            link_state_req_list: Seq::empty(),
            ..self
        }
    }

    /// The neighbor on entering `ExStart`: the sequence number is one more
    /// than the last one, 0 after the highest, and the retransmission timer
    /// is set to fire at once.
    pub open spec fn in_exstart(self) -> NeighborModel {
        NeighborModel {
            state: NbrState::ExStart,
            dd_seq_number: if self.dd_seq_number == u32::MAX {
                0
            } else {
                (self.dd_seq_number + 1) as u32
            },
            exstart_rxmt_timer: self.exstart_rxmt_timer.started_imm(),
            ..self
        }
    }

    /// The neighbor in another state.
    pub open spec fn in_state(self, state: NbrState) -> NeighborModel {
        NeighborModel { state, ..self }
    }

    /// The neighbor after `event`. `adjacency` says whether an adjacency is
    /// to be formed with it. An event that a state has no transition for
    /// changes nothing.
    pub open spec fn step(self, event: NbrEvent, adjacency: bool) -> NeighborModel {
        match event {
            NbrEvent::Start => if self.state == NbrState::Down {
                NeighborModel {
                    state: NbrState::Attempt,
                    inactivity_timer: self.inactivity_timer.started(),
                    ..self
                }
            } else {
                self
            },
            NbrEvent::HelloReceived => NeighborModel {
                state: if self.state.rank() < NbrState::Init.rank() {
                    NbrState::Init
                } else {
                    self.state
                },
                inactivity_timer: self.inactivity_timer.started(),
                ..self
            },
            NbrEvent::OneWayReceived => self.cleared().in_state(NbrState::Init),
            NbrEvent::TwoWayReceived => if self.state.rank() >= NbrState::ExStart.rank() {
                self
            } else if adjacency {
                self.in_exstart()
            } else {
                self.in_state(NbrState::TwoWay)
            },
            NbrEvent::NegotiationDone => if self.state == NbrState::ExStart {
                self.in_state(NbrState::Exchange)
            } else {
                self
            },
            NbrEvent::ExchangeDone => if self.state == NbrState::Exchange {
                if self.link_state_req_list.len() == 0 {
                    self.in_state(NbrState::Full)
                } else {
                    self.in_state(NbrState::Loading)
                }
            } else {
                self
            },
            NbrEvent::LoadingDone => if self.state == NbrState::Loading {
                self.in_state(NbrState::Full)
            } else {
                self
            },
            NbrEvent::AdjOK => if self.state == NbrState::TwoWay && adjacency {
                self.in_exstart()
            } else if self.state.rank() >= NbrState::ExStart.rank() && !adjacency {
                self.cleared().in_state(NbrState::TwoWay)
            } else {
                self
            },
            NbrEvent::SeqNumberMismatch | NbrEvent::BadLSReq => self.cleared().in_exstart(),
            NbrEvent::SeqNumberMatch => self.in_state(NbrState::Exchange),
            NbrEvent::KillNbr | NbrEvent::InactivityTimer | NbrEvent::LLDown => self.cleared(
            ).in_state(NbrState::Down),
        }
    }
}

/// The plain values of what was last sent to a neighbor.
pub open spec fn sent_dbd_model(sent: Option<(u8, u32, Vec<LsaHeader>)>) -> Option<
    (u8, u32, Seq<LsaHeader>),
> {
    match sent {
        Some((flags, seq, hdrs)) => Some((flags, seq, hdrs@)),
        None => None,
    }
}

/// The plain values of the packet last received from a neighbor.
pub open spec fn rcv_dbd_model(rcv: Option<DBDescription>) -> Option<DbdModel> {
    match rcv {
        Some(dbd) => Some(dbd@),
        None => None,
    }
}

impl View for Neighbor {
    type V = NeighborModel;

    open spec fn view(&self) -> NeighborModel {
        NeighborModel {
            state: self.state,
            inactivity_timer: self.inactivity_timer@,
            exstart_rxmt_timer: self.exstart_rxmt_timer@,
            mst_exch_timer: self.mst_exch_timer@,
            lsr_rxmt_timer: self.lsr_rxmt_timer@,
            nbr_is_master: self.nbr_is_master,
            dd_seq_number: self.dd_seq_number,
            last_rcv_dbd: rcv_dbd_model(self.last_rcv_dbd),
            last_sent_dbd: sent_dbd_model(self.last_sent_dbd),
            nbr_id: self.nbr_id,
            nbr_pri: self.nbr_pri,
            nbr_ip: self.nbr_ip,
            nbr_options: self.nbr_options,
            nbr_dr: self.nbr_dr,
            nbr_bdr: self.nbr_bdr,
            lsa_retransmission_list: self.lsa_retransmission_list@,
            db_summary_list: self.db_summary_list@,
            link_state_req_list: self.link_state_req_list@,
        }
    }
}

/// A copy of a list of advertisement headers.
pub fn copy_headers(list: &Vec<LsaHeader>) -> (copy: Vec<LsaHeader>)
    ensures
        copy@ == list@,
{
    let copy = list.clone();
    assert(copy@ =~= list@);
    copy
}

impl Clone for Neighbor {
    fn clone(&self) -> (copy: Neighbor)
        ensures
            copy@ == self@,
    {
        let last_rcv_dbd = match &self.last_rcv_dbd {
            Some(dbd) => Some(dbd.clone()),
            None => None,
        };
        let last_sent_dbd = match &self.last_sent_dbd {
            Some((flags, seq, hdrs)) => Some((*flags, *seq, copy_headers(hdrs))),
            None => None,
        };
        Neighbor {
            state: self.state,
            inactivity_timer: self.inactivity_timer.clone(),
            exstart_rxmt_timer: self.exstart_rxmt_timer.clone(),
            mst_exch_timer: self.mst_exch_timer.clone(),
            lsr_rxmt_timer: self.lsr_rxmt_timer.clone(),
            nbr_is_master: self.nbr_is_master,
            dd_seq_number: self.dd_seq_number,
            last_rcv_dbd,
            last_sent_dbd,
            nbr_id: self.nbr_id,
            nbr_pri: self.nbr_pri,
            nbr_ip: self.nbr_ip,
            nbr_options: self.nbr_options,
            nbr_dr: self.nbr_dr,
            nbr_bdr: self.nbr_bdr,
            lsa_retransmission_list: copy_headers(&self.lsa_retransmission_list),
            db_summary_list: copy_headers(&self.db_summary_list),
            link_state_req_list: copy_headers(&self.link_state_req_list),
        }
    }
}

impl Neighbor {
    /// A neighbor in state `Down`, as the Hello packet that was first heard
    /// from it describes it.
    pub fn new(hello_packet: Hello, inactivity_interval: u32, rxmt_interval: u32) -> (n: Neighbor)
        ensures
            n@ == (NeighborModel {
                nbr_pri: hello_packet.router_priority,
                nbr_ip: hello_packet.header.router_id,
                nbr_options: hello_packet.options,
                nbr_dr: hello_packet.designated_router,
                nbr_bdr: hello_packet.backup_designated_router,
                ..NeighborModel::blank(inactivity_interval, rxmt_interval)
            }),
    {
        Neighbor {
            state: NbrState::Down,
            inactivity_timer: Timer::new(inactivity_interval),
            exstart_rxmt_timer: Timer::new(rxmt_interval),
            mst_exch_timer: Timer::new(rxmt_interval),
            lsr_rxmt_timer: Timer::new(rxmt_interval),
            nbr_is_master: false,
            dd_seq_number: 0,
            last_rcv_dbd: None,
            last_sent_dbd: None,
            nbr_id: 0,
            nbr_pri: hello_packet.router_priority,
            nbr_ip: hello_packet.header.router_id,
            nbr_options: hello_packet.options,
            nbr_dr: hello_packet.designated_router,
            nbr_bdr: hello_packet.backup_designated_router,
            lsa_retransmission_list: Vec::new(),
            db_summary_list: Vec::new(),
            link_state_req_list: Vec::new(),
        }
    }

    /// A neighbor in state `Down` with every field zero or empty.
    pub fn default() -> (n: Neighbor)
        ensures
            n@ == NeighborModel::blank(0, 0),
    {
        Neighbor {
            state: NbrState::Down,
            inactivity_timer: Timer::new(0),
            exstart_rxmt_timer: Timer::new(0),
            mst_exch_timer: Timer::new(0),
            lsr_rxmt_timer: Timer::new(0),
            nbr_is_master: false,
            dd_seq_number: 0,
            last_rcv_dbd: None,
            last_sent_dbd: None,
            nbr_id: 0,
            nbr_pri: 0,
            nbr_ip: 0,
            nbr_options: 0,
            nbr_dr: 0,
            nbr_bdr: 0,
            lsa_retransmission_list: Vec::new(),
            db_summary_list: Vec::new(),
            link_state_req_list: Vec::new(),
        }
    }

    /// Empties the three lists of advertisements.
    pub fn clear_lsa_lists(&mut self)
        ensures
            final(self)@ == old(self)@.cleared(),
    {
        self.lsa_retransmission_list.clear();
        self.db_summary_list.clear();
        self.link_state_req_list.clear();
    }

    /// Enters `ExStart`.
    pub fn begin_exstart(&mut self)
        ensures
            final(self)@ == old(self)@.in_exstart(),
    {
        self.state = NbrState::ExStart;
        self.dd_seq_number = if self.dd_seq_number == u32::MAX {
            0
        } else {
            self.dd_seq_number + 1
        };
        self.exstart_rxmt_timer.start_imm();
    }

    /// Takes `event`. `adjacency` says whether an adjacency is to be formed
    /// with the neighbor.
    pub fn handle_event(&mut self, event: NbrEvent, adjacency: bool)
        ensures
            final(self)@ == old(self)@.step(event, adjacency),
    {
        match event {
            NbrEvent::Start => {
                if self.state == NbrState::Down {
                    self.state = NbrState::Attempt;
                    self.inactivity_timer.start();
                }
            },
            NbrEvent::HelloReceived => {
                if self.state.lower_than_init() {
                    self.state = NbrState::Init;
                }
                self.inactivity_timer.start();
            },
            NbrEvent::OneWayReceived => {
                self.state = NbrState::Init;
                self.clear_lsa_lists();
            },
            NbrEvent::TwoWayReceived => {
                if self.state.higher_than_two_way() {
                } else if adjacency {
                    self.begin_exstart();
                } else {
                    self.state = NbrState::TwoWay;
                }
            },
            NbrEvent::NegotiationDone => {
                if self.state == NbrState::ExStart {
                    self.state = NbrState::Exchange;
                }
            },
            NbrEvent::ExchangeDone => {
                if self.state == NbrState::Exchange {
                    if self.link_state_req_list.len() == 0 {
                        self.state = NbrState::Full;
                    } else {
                        self.state = NbrState::Loading;
                    }
                }
            },
            NbrEvent::LoadingDone => {
                if self.state == NbrState::Loading {
                    self.state = NbrState::Full;
                }
            },
            NbrEvent::AdjOK => {
                if self.state == NbrState::TwoWay && adjacency {
                    self.begin_exstart();
                } else if self.state.higher_than_two_way() && !adjacency {
                    self.state = NbrState::TwoWay;
                    self.clear_lsa_lists();
                }
            },
            NbrEvent::SeqNumberMismatch | NbrEvent::BadLSReq => {
                self.clear_lsa_lists();
                self.begin_exstart();
            },
            NbrEvent::SeqNumberMatch => {
                self.state = NbrState::Exchange;
            },
            NbrEvent::KillNbr | NbrEvent::InactivityTimer | NbrEvent::LLDown => {
                self.state = NbrState::Down;
                self.clear_lsa_lists();
            },
        }
    }

    /// Takes the inactivity event if `expired` says that the running
    /// inactivity timer has run out, and stops the timer then.
    pub fn expire_if(&mut self, expired: bool)
        ensures
            final(self)@ == if old(self)@.inactivity_timer.active && expired {
                let down = old(self)@.step(NbrEvent::InactivityTimer, false);
                NeighborModel { inactivity_timer: down.inactivity_timer.stopped(), ..down }
            } else {
                old(self)@
            },
    {
        if self.inactivity_timer.is_up() && expired {
            self.handle_event(NbrEvent::InactivityTimer, false);
            self.inactivity_timer.stop();
        }
    }

    /// Looks at the inactivity timer: a neighbor whose running timer has run
    /// out goes `Down`, and the timer is stopped. Whether it has run out is
    /// read off the clock; a running timer whose lead covers its interval
    /// has run out whatever the clock shows, and any other neighbor whose
    /// timer has not run out stays as it is.
    pub fn check_timers(&mut self)
        ensures
            exists|expired: bool|
                old(self)@.inactivity_timer.may_show(expired) && final(self)@ == old(
                    self,
                )@.expire(expired),
            old(self)@.inactivity_timer.run_out(0) ==> final(self)@ == old(self)@.expire(true),
            final(self)@ == old(self)@ || final(self)@ == (NeighborModel {
                inactivity_timer: old(self)@.inactivity_timer.stopped(),
                ..old(self)@.step(NbrEvent::InactivityTimer, false)
            }),
            !old(self)@.inactivity_timer.active ==> final(self)@ == old(self)@,
    {
        if self.inactivity_timer.is_up() {
            let expired = self.inactivity_timer.is_expired();
            proof {
                lemma_may_show(self@.inactivity_timer, expired);
            }
            self.expire_if(expired);
            assert(old(self)@.inactivity_timer.may_show(expired) && self@ == old(self)@.expire(
                expired,
            ));
        } else {
            proof {
                lemma_may_show(self@.inactivity_timer, false);
            }
            assert(old(self)@.inactivity_timer.may_show(false) && self@ == old(self)@.expire(
                false,
            ));
        }
    }
}

} // verus!
