//! The exchange of database descriptions with one neighbor.

use vstd::prelude::*;
use crate::lsa::LsaHeader;
use crate::neighbor::{copy_headers, sent_dbd_model, NbrEvent, NbrState, Neighbor, NeighborModel};
use crate::packets::{DBDFlag, DBDescription, DbdModel};

verus! {

/// `list` has a header with the identity of `h`.
pub open spec fn has_identity(list: Seq<LsaHeader>, h: LsaHeader) -> bool {
    exists|i: int| 0 <= i < list.len() && (#[trigger] list[i]).same_identity(h)
}

/// The headers of `hdrs` whose identity `known` does not have, in their
/// order.
pub open spec fn unknown(hdrs: Seq<LsaHeader>, known: Seq<LsaHeader>) -> Seq<LsaHeader>
    decreases hdrs.len(),
{
    if hdrs.len() == 0 {
        Seq::empty()
    } else if has_identity(known, hdrs.last()) {
        unknown(hdrs.drop_last(), known)
    } else {
        unknown(hdrs.drop_last(), known).push(hdrs.last())
    }
}

/// The number of headers that one packet can carry on a link with the given
/// MTU: 100 bytes are set aside, and a header takes 20.
pub open spec fn capacity(mtu: u16) -> nat {
    if mtu < 100 {
        0
    } else {
        ((mtu - 100) / 20) as nat
    }
}

/// The number of headers of `summary` that go into the next packet.
pub open spec fn chunk_len(summary: Seq<LsaHeader>, mtu: u16) -> nat {
    if capacity(mtu) < summary.len() {
        capacity(mtu)
    } else {
        summary.len()
    }
}

/// The sequence number after `seq`, 0 after the highest.
pub open spec fn seq_after(seq: u32) -> u32 {
    if seq == u32::MAX {
        0
    } else {
        (seq + 1) as u32
    }
}

/// The headers that the packet last sent carried.
pub open spec fn acknowledged(sent: Option<(u8, u32, Seq<LsaHeader>)>) -> Seq<LsaHeader> {
    match sent {
        Some(s) => s.2,
        None => Seq::empty(),
    }
}

impl NeighborModel {
    /// The neighbor after the next part of the summary list has been put
    /// into a packet with sequence number `seq`, and that packet. The packet
    /// has the master flag as given, and the more flag if headers remain.
    pub open spec fn next_chunk(self, seq: u32, mtu: u16, master: bool) -> (
        NeighborModel,
        (u8, u32, Seq<LsaHeader>),
    ) {
        let count = chunk_len(self.db_summary_list, mtu);
        let out = (
            (DBDFlag { init: false, more: count < self.db_summary_list.len(), masterslave: master })
            .byte(),
            seq,
            self.db_summary_list.take(count as int),
        );
        (
            NeighborModel {
                db_summary_list: self.db_summary_list.skip(count as int),
                last_sent_dbd: Some(out),
                ..self
            },
            out,
        )
    }

    /// The neighbor after a database description has been accepted, and the
    /// packet to answer it with, if any.
    ///
    /// The headers that the database does not have are added to the request
    /// list, and the headers that the packet last sent carried leave the
    /// summary list. As slave, this router takes the packet's sequence
    /// number and answers with the next part of the summary list; when that
    /// was the last part and the neighbor has no more either, the exchange
    /// is done. As master, this router goes on to the next sequence number;
    /// when the neighbor has no more and the summary list is empty, the
    /// exchange is done, else the next part of the summary list is sent.
    pub open spec fn accept(self, dbd: DbdModel, mtu: u16, lsdb: Seq<LsaHeader>) -> (
        NeighborModel,
        Option<(u8, u32, Seq<LsaHeader>)>,
    ) {
        let n = NeighborModel {
            link_state_req_list: self.link_state_req_list + unknown(dbd.lsa_hdrs, lsdb),
            db_summary_list: unknown(self.db_summary_list, acknowledged(self.last_sent_dbd)),
            ..self
        };
        if n.nbr_is_master {
            let last = chunk_len(n.db_summary_list, mtu) == n.db_summary_list.len();
            let sent = NeighborModel { dd_seq_number: dbd.dbd_seq_num, ..n }.next_chunk(
                dbd.dbd_seq_num,
                mtu,
                false,
            );
            (
                if last && !dbd.flag().more {
                    sent.0.step(NbrEvent::ExchangeDone, true)
                } else {
                    sent.0
                },
                Some(sent.1),
            )
        } else {
            let m = NeighborModel { dd_seq_number: seq_after(n.dd_seq_number), ..n };
            if !dbd.flag().more && m.db_summary_list.len() == 0 {
                (
                    NeighborModel { mst_exch_timer: m.mst_exch_timer.stopped(), ..m }.step(
                        NbrEvent::ExchangeDone,
                        true,
                    ),
                    None,
                )
            } else {
                let sent = m.next_chunk(m.dd_seq_number, mtu, true);
                (
                    NeighborModel { mst_exch_timer: sent.0.mst_exch_timer.started(), ..sent.0 },
                    Some(sent.1),
                )
            }
        }
    }

    /// The neighbor in `ExStart` after a database description, and the
    /// packet to answer it with, if any.
    ///
    /// A packet with all three flags set from a router with the higher
    /// identifier makes the neighbor master: this router takes its sequence
    /// number and answers with the first part of the summary list. A packet
    /// with neither the init nor the master flag, with this router's
    /// sequence number, from a router with the lower identifier, makes this
    /// router master, and is accepted. Any other packet is left aside. Once
    /// the roles are settled the neighbor's options are noted, the summary
    /// list takes the headers of the database, and the exchange begins.
    pub open spec fn negotiate(self, dbd: DbdModel, me: u32, mtu: u16, lsdb: Seq<LsaHeader>) -> (
        NeighborModel,
        Option<(u8, u32, Seq<LsaHeader>)>,
    ) {
        if dbd.all_flags() && self.nbr_id > me {
            let n = NeighborModel {
                nbr_is_master: true,
                dd_seq_number: dbd.dbd_seq_num,
                nbr_options: dbd.options,
                state: NbrState::Exchange,
                db_summary_list: self.db_summary_list + lsdb,
                ..self
            };
            let count = chunk_len(n.db_summary_list, mtu);
            let out = (
                (DBDFlag { init: false, more: count < n.db_summary_list.len(), masterslave: false })
                .byte(),
                n.dd_seq_number,
                n.db_summary_list.take(count as int),
            );
            (NeighborModel { last_sent_dbd: Some(out), ..n }, Some(out))
        } else if !dbd.flag().init && !dbd.flag().masterslave && dbd.dbd_seq_num
            == self.dd_seq_number && self.nbr_id < me {
            NeighborModel {
                nbr_is_master: false,
                nbr_options: dbd.options,
                state: NbrState::Exchange,
                db_summary_list: self.db_summary_list + lsdb,
                ..self
            }.accept(dbd, mtu, lsdb)
        } else {
            (self, None)
        }
    }

    /// The packet is in order for the exchange: its master flag is the
    /// neighbor's role, its init flag is not set, its options are the ones
    /// noted, and its sequence number is the one after this router's where
    /// the neighbor is master, and this router's where it is slave.
    pub open spec fn in_order(self, dbd: DbdModel) -> bool {
        &&& dbd.flag().masterslave == self.nbr_is_master
        &&& !dbd.flag().init
        &&& dbd.options == self.nbr_options
        &&& dbd.dbd_seq_num == if self.nbr_is_master {
            seq_after(self.dd_seq_number)
        } else {
            self.dd_seq_number
        }
    }

    /// What is sent again on a duplicate: as slave the packet last sent, as
    /// master nothing.
    pub open spec fn resend(self) -> Option<(u8, u32, Seq<LsaHeader>)> {
        if self.nbr_is_master {
            self.last_sent_dbd
        } else {
            None
        }
    }

    /// The neighbor after a database description, and the packet to answer
    /// it with, if any.
    ///
    /// The packet is a duplicate if it has the sequence number of the one
    /// received before it. It is noted as the last one received. A neighbor
    /// in `Init` first takes the event that two-way communication exists.
    /// In `ExStart` the packet settles who is master; in `Exchange` a
    /// duplicate is answered as `resend` says, a packet that is not in order
    /// is a sequence number mismatch, and any other is accepted; in
    /// `Loading` and `Full` a duplicate is answered in the same way and any
    /// other packet is a sequence number mismatch. In the lower states the
    /// packet is left aside.
    pub open spec fn dbd_step(
        self,
        dbd: DbdModel,
        me: u32,
        mtu: u16,
        lsdb: Seq<LsaHeader>,
        adjacency: bool,
    ) -> (NeighborModel, Option<(u8, u32, Seq<LsaHeader>)>) {
        let duped = self.last_rcv_dbd is Some && self.last_rcv_dbd->0.dbd_seq_num
            == dbd.dbd_seq_num;
        let noted = NeighborModel { last_rcv_dbd: Some(dbd), ..self };
        let n = if noted.state == NbrState::Init {
            noted.step(NbrEvent::TwoWayReceived, adjacency)
        } else {
            noted
        };
        match n.state {
            NbrState::ExStart => n.negotiate(dbd, me, mtu, lsdb),
            NbrState::Exchange => if duped {
                (n, n.resend())
            } else if !n.in_order(dbd) {
                (n.step(NbrEvent::SeqNumberMismatch, adjacency), None)
            } else {
                n.accept(dbd, mtu, lsdb)
            },
            NbrState::Loading | NbrState::Full => if duped {
                (n, n.resend())
            } else {
                (n.step(NbrEvent::SeqNumberMismatch, adjacency), None)
            },
            _ => (n, None),
        }
    }
}

/// Whether `list` has a header with the identity of `h`.
pub fn contains_identity(list: &Vec<LsaHeader>, h: &LsaHeader) -> (has: bool)
    ensures
        has == has_identity(list@, *h),
{
    let mut i: usize = 0;
    while i < list.len()
        invariant
            i <= list.len(),
            forall|j: int| 0 <= j < i ==> !(#[trigger] list@[j]).same_identity(*h),
        decreases list.len() - i,
    {
        if list[i].same_ids(h) {
            return true;
        }
        i += 1;
    }
    false
}

/// Appends to `out` the headers of `hdrs` whose identity `known` does not
/// have.
pub fn push_unknown(out: &mut Vec<LsaHeader>, hdrs: &Vec<LsaHeader>, known: &Vec<LsaHeader>)
    ensures
        final(out)@ == old(out)@ + unknown(hdrs@, known@),
{
    let ghost start = out@;
    assert(hdrs@.take(0) =~= Seq::<LsaHeader>::empty());
    assert(out@ =~= start + unknown(hdrs@.take(0), known@));
    let mut i: usize = 0;
    while i < hdrs.len()
        invariant
            i <= hdrs.len(),
            out@ == start + unknown(hdrs@.take(i as int), known@),
        decreases hdrs.len() - i,
    {
        let ghost next = hdrs@.take(i + 1);
        proof {
            assert(next.drop_last() =~= hdrs@.take(i as int));
        }
        if !contains_identity(known, &hdrs[i]) {
            out.push(hdrs[i]);
            assert(out@ =~= start + unknown(next, known@));
        }
        i += 1;
    }
    assert(hdrs@.take(i as int) =~= hdrs@);
}

/// The headers of `hdrs` whose identity `known` does not have.
pub fn filter_unknown(hdrs: &Vec<LsaHeader>, known: &Vec<LsaHeader>) -> (out: Vec<LsaHeader>)
    ensures
        out@ == unknown(hdrs@, known@),
{
    let mut out: Vec<LsaHeader> = Vec::new();
    push_unknown(&mut out, hdrs, known);
    assert(out@ =~= unknown(hdrs@, known@));
    out
}

/// The number of headers that one packet can carry on a link with the given
/// MTU.
pub fn headers_per_packet(mtu: u16) -> (n: usize)
    ensures
        n == capacity(mtu),
{
    if mtu < 100 {
        0
    } else {
        ((mtu - 100) / 20) as usize
    }
}

/// The sequence number after `seq`.
pub fn next_dd_seq(seq: u32) -> (next: u32)
    ensures
        next == seq_after(seq),
{
    if seq == u32::MAX {
        0
    } else {
        seq + 1
    }
}

/// The first `n` headers of `list` and the rest of it.
pub fn split_headers(list: &Vec<LsaHeader>, n: usize) -> (r: (Vec<LsaHeader>, Vec<LsaHeader>))
    requires
        n <= list@.len(),
    ensures
        r.0@ == list@.take(n as int),
        r.1@ == list@.skip(n as int),
{
    let mut head: Vec<LsaHeader> = Vec::new();
    let mut tail: Vec<LsaHeader> = Vec::new();
    let mut i: usize = 0;
    while i < list.len()
        invariant
            i <= list.len(),
            n <= list@.len(),
            head@ == list@.take(if i < n {
                i as int
            } else {
                n as int
            }),
            tail@ == list@.subrange(n as int, if i < n {
                n as int
            } else {
                i as int
            }),
        decreases list.len() - i,
    {
        if i < n {
            head.push(list[i]);
            assert(head@ =~= list@.take(i + 1));
            assert(tail@ =~= list@.subrange(n as int, n as int));
        } else {
            tail.push(list[i]);
            assert(tail@ =~= list@.subrange(n as int, i + 1));
        }
        i += 1;
    }
    assert(tail@ =~= list@.skip(n as int));
    (head, tail)
}

impl Neighbor {
    /// Puts the next part of the summary list into a packet with sequence
    /// number `seq` and notes it as the packet last sent.
    pub fn take_chunk(&mut self, seq: u32, mtu: u16, master: bool) -> (out: (
        u8,
        u32,
        Vec<LsaHeader>,
    ))
        ensures
            final(self)@ == old(self)@.next_chunk(seq, mtu, master).0,
            (out.0, out.1, out.2@) == old(self)@.next_chunk(seq, mtu, master).1,
    {
        let cap = headers_per_packet(mtu);
        let len = self.db_summary_list.len();
        let count = if cap < len {
            cap
        } else {
            len
        };
        let (head, tail) = split_headers(&self.db_summary_list, count);
        let flags = DBDFlag::new(false, count < len, master).to_byte();
        self.db_summary_list = tail;
        self.last_sent_dbd = Some((flags, seq, copy_headers(&head)));
        (flags, seq, head)
    }

    /// Accepts a database description in the exchange.
    pub fn accept_dbd(&mut self, dbd: &DBDescription, mtu: u16, lsdb: &Vec<LsaHeader>) -> (out:
        Option<(u8, u32, Vec<LsaHeader>)>)
        ensures
            final(self)@ == old(self)@.accept(dbd@, mtu, lsdb@).0,
            sent_dbd_model(out) == old(self)@.accept(dbd@, mtu, lsdb@).1,
    {
        push_unknown(&mut self.link_state_req_list, &dbd.lsa_hdrs, lsdb);
        let summary = match &self.last_sent_dbd {
            Some(sent) => filter_unknown(&self.db_summary_list, &sent.2),
            None => {
                let empty: Vec<LsaHeader> = Vec::new();
                filter_unknown(&self.db_summary_list, &empty)
            },
        };
        self.db_summary_list = summary;
        let more = dbd.get_flag().more;
        if self.nbr_is_master {
            self.dd_seq_number = dbd.dbd_seq_num;
            let cap = headers_per_packet(mtu);
            let last = if cap < self.db_summary_list.len() {
                false
            } else {
                true
            };
            let out = self.take_chunk(dbd.dbd_seq_num, mtu, false);
            if last && !more {
                self.handle_event(NbrEvent::ExchangeDone, true);
            }
            Some(out)
        } else {
            self.dd_seq_number = next_dd_seq(self.dd_seq_number);
            if !more && self.db_summary_list.len() == 0 {
                self.mst_exch_timer.stop();
                self.handle_event(NbrEvent::ExchangeDone, true);
                None
            } else {
                let out = self.take_chunk(self.dd_seq_number, mtu, true);
                self.mst_exch_timer.start();
                Some(out)
            }
        }
    }

    /// Settles with the neighbor in `ExStart` who is master.
    pub fn negotiate_dbd(&mut self, dbd: &DBDescription, me: u32, mtu: u16, lsdb: &Vec<LsaHeader>)
        -> (out: Option<(u8, u32, Vec<LsaHeader>)>)
        ensures
            final(self)@ == old(self)@.negotiate(dbd@, me, mtu, lsdb@).0,
            sent_dbd_model(out) == old(self)@.negotiate(dbd@, me, mtu, lsdb@).1,
    {
        let flag = dbd.get_flag();
        if dbd.all_flag_set() && self.nbr_id > me {
            self.nbr_is_master = true;
            self.dd_seq_number = dbd.dbd_seq_num;
            self.nbr_options = dbd.options;
            self.state = NbrState::Exchange;
            let ghost before = self.db_summary_list@;
            let mut rest = copy_headers(lsdb);
            self.db_summary_list.append(&mut rest);
            let cap = headers_per_packet(mtu);
            let len = self.db_summary_list.len();
            let count = if cap < len {
                cap
            } else {
                len
            };
            let (head, _tail) = split_headers(&self.db_summary_list, count);
            let flags = DBDFlag::new(false, count < len, false).to_byte();
            self.last_sent_dbd = Some((flags, self.dd_seq_number, copy_headers(&head)));
            Some((flags, self.dd_seq_number, head))
        } else if !flag.init && !flag.masterslave && dbd.dbd_seq_num == self.dd_seq_number
            && self.nbr_id < me {
            self.nbr_is_master = false;
            self.nbr_options = dbd.options;
            self.state = NbrState::Exchange;
            let mut rest = copy_headers(lsdb);
            self.db_summary_list.append(&mut rest);
            self.accept_dbd(dbd, mtu, lsdb)
        } else {
            None
        }
    }

    /// Whether the packet is in order for the exchange.
    pub fn dbd_in_order(&self, dbd: &DBDescription) -> (ok: bool)
        ensures
            ok == self@.in_order(dbd@),
    {
        let flag = dbd.get_flag();
        let expected = if self.nbr_is_master {
            next_dd_seq(self.dd_seq_number)
        } else {
            self.dd_seq_number
        };
        flag.masterslave == self.nbr_is_master && !flag.init && dbd.options == self.nbr_options
            && dbd.dbd_seq_num == expected
    }

    /// What is sent again on a duplicate.
    pub fn resend_dbd(&self) -> (out: Option<(u8, u32, Vec<LsaHeader>)>)
        ensures
            sent_dbd_model(out) == self@.resend(),
    {
        if self.nbr_is_master {
            match &self.last_sent_dbd {
                Some((flags, seq, hdrs)) => Some((*flags, *seq, copy_headers(hdrs))),
                None => None,
            }
        } else {
            None
        }
    }

    /// Takes a database description from the neighbor. `me` is this
    /// router's identifier, `mtu` the MTU of the link, `lsdb` the headers of
    /// the advertisements in the database, and `adjacency` says whether an
    /// adjacency is to be formed with the neighbor. Gives the flags,
    /// sequence number and headers of the packet to answer with, if any.
    pub fn handle_dbd(
        &mut self,
        dbd: DBDescription,
        me: u32,
        mtu: u16,
        lsdb: &Vec<LsaHeader>,
        adjacency: bool,
    ) -> (out: Option<(u8, u32, Vec<LsaHeader>)>)
        ensures
            final(self)@ == old(self)@.dbd_step(dbd@, me, mtu, lsdb@, adjacency).0,
            sent_dbd_model(out) == old(self)@.dbd_step(dbd@, me, mtu, lsdb@, adjacency).1,
    {
        let duped = match &self.last_rcv_dbd {
            Some(last) => last.dbd_seq_num == dbd.dbd_seq_num,
            None => false,
        };
        self.last_rcv_dbd = Some(dbd.clone());
        if self.state == NbrState::Init {
            self.handle_event(NbrEvent::TwoWayReceived, adjacency);
        }
        match self.state {
            NbrState::ExStart => self.negotiate_dbd(&dbd, me, mtu, lsdb),
            NbrState::Exchange => {
                if duped {
                    self.resend_dbd()
                } else if !self.dbd_in_order(&dbd) {
                    self.handle_event(NbrEvent::SeqNumberMismatch, adjacency);
                    None
                } else {
                    self.accept_dbd(&dbd, mtu, lsdb)
                }
            },
            NbrState::Loading | NbrState::Full => {
                if duped {
                    self.resend_dbd()
                } else {
                    self.handle_event(NbrEvent::SeqNumberMismatch, adjacency);
                    None
                }
            },
            _ => None,
        }
    }
}

} // verus!
