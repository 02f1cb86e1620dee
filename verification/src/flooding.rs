//! What becomes of an advertisement that a neighbor sends in a Link State
//! Update.

use vstd::prelude::*;
use crate::config::MAX_SEQ_NUM_LSA;
use crate::database::{installed, lemma_installed, lemma_position, position, unique_identities,
    LsaKey};
use crate::exchange::{contains_identity, has_identity};
use crate::lsa::{Lsa, LsaCmpResult, LsaHeader, LsaModel};
use crate::neighbor::{NbrEvent, NbrState, Neighbor, NeighborModel};

verus! {

/// What is to be done about an advertisement that a neighbor has sent.
#[derive(Debug, Clone, Copy, PartialEq, Eq, Structural)]
pub struct LsuOutcome {
    /// The advertisement is acknowledged to the neighbor.
    pub ack: bool,
    /// The database's copy is sent back to the neighbor.
    pub reply: bool,
    /// The advertisement is flooded and put into the database.
    pub accept: bool,
    /// The rest of the packet is left aside.
    pub abort: bool,
}

impl LsuOutcome {
    /// Nothing is done.
    pub open spec fn dropped() -> LsuOutcome {
        LsuOutcome { ack: false, reply: false, accept: false, abort: false }
    }
}

/// `list` without the headers that have the identity of `h`.
pub open spec fn without_identity(list: Seq<LsaHeader>, h: LsaHeader) -> Seq<LsaHeader>
    decreases list.len(),
{
    if list.len() == 0 {
        Seq::empty()
    } else if list.last().same_identity(h) {
        without_identity(list.drop_last(), h)
    } else {
        without_identity(list.drop_last(), h).push(list.last())
    }
}

/// The type byte of `h` is one of the five known ones.
pub open spec fn known_type(h: LsaHeader) -> bool {
    1 <= h.ls_type <= 5
}

impl NeighborModel {
    /// The neighbor after the advertisement `lsa` has been accepted from it:
    /// the advertisement leaves its request list and its retransmission
    /// list, and a neighbor in `Loading` whose request list is empty then is
    /// done loading.
    pub open spec fn accepted(self, h: LsaHeader) -> NeighborModel {
        let n = NeighborModel {
            link_state_req_list: without_identity(self.link_state_req_list, h),
            lsa_retransmission_list: without_identity(self.lsa_retransmission_list, h),
            ..self
        };
        if n.state == NbrState::Loading && n.link_state_req_list.len() == 0 {
            n.step(NbrEvent::LoadingDone, true)
        } else {
            n
        }
    }

    /// The neighbor after it has sent the advertisement `lsa`, of which the
    /// database holds `copy`, and what is to be done about the
    /// advertisement. `recent` says whether the database has installed its
    /// copy less than `MIN_LS_ARRIVAL` seconds ago.
    ///
    /// An advertisement of unknown type or with a wrong checksum is dropped.
    /// One at the maximum age that the database does not hold is
    /// acknowledged and dropped. One that the database does not hold is
    /// accepted. One that is newer than the database's copy is accepted,
    /// unless it is on the neighbor's request list, which is a bad request
    /// and ends the packet, or it is at the maximum age with the last
    /// sequence number, or the copy is recent, which drops it. One that is
    /// the same as the
    /// database's copy leaves the neighbor's retransmission list and is
    /// acknowledged. One that is older has the database's copy sent back,
    /// unless the two are of the same age, which drops it.
    #[verifier::opaque]
    pub open spec fn lsu_step(
        self,
        lsa: LsaModel,
        copy: Option<LsaModel>,
        recent: bool,
        adjacency: bool,
    ) -> (NeighborModel, LsuOutcome) {
        let h = lsa.header();
        let accept = (
            self.accepted(h),
            LsuOutcome { ack: true, reply: false, accept: true, abort: false },
        );
        if !known_type(h) || !lsa.checksum_valid() {
            (self, LsuOutcome::dropped())
        } else {
            match copy {
                None => if h.is_max_age() {
                    (self, LsuOutcome { ack: true, ..LsuOutcome::dropped() })
                } else {
                    accept
                },
                Some(c) => match h.freshness(c.header()) {
                    LsaCmpResult::Newer => if has_identity(self.link_state_req_list, h) {
                        (
                            self.step(NbrEvent::BadLSReq, adjacency),
                            LsuOutcome { abort: true, ..LsuOutcome::dropped() },
                        )
                    } else if (h.is_max_age() && h.sequence_number == MAX_SEQ_NUM_LSA) || recent {
                        (self, LsuOutcome::dropped())
                    } else {
                        accept
                    },
                    LsaCmpResult::Same => (
                        NeighborModel {
                            lsa_retransmission_list: without_identity(
                                self.lsa_retransmission_list,
                                h,
                            ),
                            ..self
                        },
                        LsuOutcome { ack: true, ..LsuOutcome::dropped() },
                    ),
                    LsaCmpResult::Older => if h.age == c.header().age {
                        (self, LsuOutcome::dropped())
                    } else {
                        (self, LsuOutcome { reply: true, ..LsuOutcome::dropped() })
                    },
                },
            }
        }
    }
}

/// Takes from `list` the headers that have the identity of `h`.
pub fn remove_identity(list: &mut Vec<LsaHeader>, h: &LsaHeader)
    ensures
        final(list)@ == without_identity(old(list)@, *h),
{
    let mut out: Vec<LsaHeader> = Vec::new();
    let mut i: usize = 0;
    assert(list@.take(0) =~= Seq::<LsaHeader>::empty());
    while i < list.len()
        invariant
            i <= list.len(),
            list@ == old(list)@,
            out@ == without_identity(list@.take(i as int), *h),
        decreases list.len() - i,
    {
        proof {
            let next = list@.take(i + 1);
            assert(next.drop_last() =~= list@.take(i as int));
        }
        if !list[i].same_ids(h) {
            out.push(list[i]);
        }
        i += 1;
    }
    assert(list@.take(i as int) =~= list@);
    *list = out;
}

impl Neighbor {
    /// Takes the advertisement out of the request list and the
    /// retransmission list, and is done loading if nothing is left to
    /// request.
    pub fn accept_lsa(&mut self, h: &LsaHeader)
        ensures
            final(self)@ == old(self)@.accepted(*h),
    {
        remove_identity(&mut self.link_state_req_list, h);
        remove_identity(&mut self.lsa_retransmission_list, h);
        if self.state == NbrState::Loading && self.link_state_req_list.len() == 0 {
            self.handle_event(NbrEvent::LoadingDone, true);
        }
    }

    /// Takes one advertisement of a Link State Update from the neighbor.
    /// `copy` is the advertisement of the same identity that the database
    /// holds, if it holds one, and `recent` says whether the database has
    /// installed it less than `MIN_LS_ARRIVAL` seconds ago.
    pub fn handle_lsa(&mut self, lsa: &Lsa, copy: Option<&Lsa>, recent: bool, adjacency: bool) -> (out:
        LsuOutcome)
        requires
            copy matches Some(c) ==> c@.header().same_identity(lsa@.header()),
        ensures
            final(self)@ == old(self)@.lsu_step(
                lsa@,
                match copy {
                    Some(c) => Some(c@),
                    None => None,
                },
                recent,
                adjacency,
            ).0,
            out == old(self)@.lsu_step(
                lsa@,
                match copy {
                    Some(c) => Some(c@),
                    None => None,
                },
                recent,
                adjacency,
            ).1,
    {
        proof {
            reveal(NeighborModel::lsu_step);
        }
        let h = *lsa.get_hdr();
        let nothing = LsuOutcome { ack: false, reply: false, accept: false, abort: false };
        if h.ls_type == 0 || h.ls_type > 5 || !lsa.checksum_ok() {
            return nothing;
        }
        match copy {
            None => {
                if h.at_max_age() {
                    LsuOutcome { ack: true, reply: false, accept: false, abort: false }
                } else {
                    self.accept_lsa(&h);
                    LsuOutcome { ack: true, reply: false, accept: true, abort: false }
                }
            },
            Some(c) => {
                let verdict = lsa.cmp_with(c);
                match verdict {
                    LsaCmpResult::Newer => {
                        if contains_identity(&self.link_state_req_list, &h) {
                            self.handle_event(NbrEvent::BadLSReq, adjacency);
                            LsuOutcome { ack: false, reply: false, accept: false, abort: true }
                        } else if (h.at_max_age() && h.sequence_number == MAX_SEQ_NUM_LSA)
                            || recent {
                            nothing
                        } else {
                            self.accept_lsa(&h);
                            LsuOutcome { ack: true, reply: false, accept: true, abort: false }
                        }
                    },
                    LsaCmpResult::Same => {
                        remove_identity(&mut self.lsa_retransmission_list, &h);
                        LsuOutcome { ack: true, reply: false, accept: false, abort: false }
                    },
                    LsaCmpResult::Older => {
                        if h.age == c.get_hdr().age {
                            nothing
                        } else {
                            LsuOutcome { ack: false, reply: true, accept: false, abort: false }
                        }
                    },
                }
            },
        }
    }
}

/// The advertisement with the identity of `h` that `db` holds.
pub open spec fn copy_of(db: Seq<LsaModel>, h: LsaHeader) -> Option<LsaModel> {
    match position(db, LsaKey::Identity(h)) {
        Some(i) => Some(db[i]),
        None => None,
    }
}

/// The neighbor and the database after the neighbor has sent the
/// advertisements `lsas`, one after the other: each is judged against the
/// copy that the database holds at that moment, and put into the database if
/// it is accepted. `recent` says for each advertisement whether the copy was
/// installed less than `MIN_LS_ARRIVAL` seconds before it came.
pub open spec fn receipts(
    nbr: NeighborModel,
    db: Seq<LsaModel>,
    lsas: Seq<LsaModel>,
    recent: Seq<bool>,
) -> (NeighborModel, Seq<LsaModel>)
    decreases lsas.len(),
{
    if lsas.len() == 0 {
        (nbr, db)
    } else {
        let before = receipts(nbr, db, lsas.drop_last(), recent);
        let step = before.0.lsu_step(
            lsas.last(),
            copy_of(before.1, lsas.last().header()),
            recent[lsas.len() - 1],
            true,
        );
        (
            step.0,
            if step.1.accept {
                installed(before.1, lsas.last())
            } else {
                before.1
            },
        )
    }
}

/// Advertisement number `i` of `lsas` was accepted when the neighbor sent
/// `lsas` one after the other.
pub open spec fn accepted_at(
    nbr: NeighborModel,
    db: Seq<LsaModel>,
    lsas: Seq<LsaModel>,
    recent: Seq<bool>,
    i: int,
) -> bool {
    let before = receipts(nbr, db, lsas.take(i), recent);
    before.0.lsu_step(lsas[i], copy_of(before.1, lsas[i].header()), recent[i], true).1.accept
}

/// `db` holds an advertisement with the identity of `l` than which `l` is
/// not newer.
pub open spec fn holds_no_older(db: Seq<LsaModel>, l: LsaModel) -> bool {
    match copy_of(db, l.header()) {
        Some(e) => e.header().same_identity(l.header()) && l.header().freshness(e.header())
            != LsaCmpResult::Newer,
        None => false,
    }
}

/// "Newer" carries over: what is newer than something newer than a third
/// instance is newer than the third.
pub proof fn lemma_newer_transitive(a: LsaHeader, b: LsaHeader, c: LsaHeader)
    requires
        a.freshness(b) == LsaCmpResult::Newer,
        b.freshness(c) == LsaCmpResult::Newer,
    ensures
        a.freshness(c) == LsaCmpResult::Newer,
{
}

/// An advertisement is accepted only if the database holds none of its
/// identity, or it is newer than the one that the database holds.
pub proof fn lemma_accept(n: NeighborModel, l: LsaModel, copy: Option<LsaModel>, recent: bool)
    requires
        n.lsu_step(l, copy, recent, true).1.accept,
    ensures
        copy matches Some(c) ==> l.header().freshness(c.header()) == LsaCmpResult::Newer,
{
    reveal(NeighborModel::lsu_step);
}

/// After an advertisement has been installed, the database holds it under
/// its identity, and under every other identity what it held before.
#[verifier::rlimit(40)]
pub proof fn lemma_copy_installed(db: Seq<LsaModel>, l: LsaModel, h: LsaHeader)
    requires
        unique_identities(db),
    ensures
        copy_of(installed(db, l), h) == if h.same_identity(l.header()) {
            Some(l)
        } else {
            copy_of(db, h)
        },
{
    let after = installed(db, l);
    let kl = LsaKey::Identity(l.header());
    let kh = LsaKey::Identity(h);
    lemma_installed(db, l);
    lemma_position(db, kl);
    lemma_position(db, kh);
    lemma_position(after, kl);
    lemma_position(after, kh);
    let w = position(after, kl)->0;
    if h.same_identity(l.header()) {
        assert(kh.selects(after[w]));
        let k = position(after, kh)->0;
        assert(after[k].header().same_identity(l.header()));
    } else {
        match position(db, kh) {
            Some(p) => {
                assert(after[p] == db[p]) by {
                    match position(db, kl) {
                        Some(q) => {
                            assert(q != p);
                        },
                        None => {},
                    }
                }
                assert(kh.selects(after[p]));
                let k = position(after, kh)->0;
                if k != p {
                    assert(!after[k].header().same_identity(after[p].header()));
                }
            },
            None => {
                match position(after, kh) {
                    Some(k) => {
                        if k < db.len() {
                            match position(db, kl) {
                                Some(q) => {
                                    if k != q {
                                        assert(after[k] == db[k]);
                                        assert(kh.selects(db[k]));
                                    }
                                },
                                None => {
                                    assert(after[k] == db[k]);
                                    assert(kh.selects(db[k]));
                                },
                            }
                        }
                    },
                    None => {},
                }
            },
        }
    }
}

/// After any sequence of receipts the database holds each identity once,
/// and for every advertisement that was accepted it holds an advertisement
/// of that identity than which the accepted one is not newer: the newest one
/// accepted.
#[verifier::rlimit(40)]
pub proof fn lemma_receipts(
    nbr: NeighborModel,
    db: Seq<LsaModel>,
    lsas: Seq<LsaModel>,
    recent: Seq<bool>,
)
    requires
        unique_identities(db),
        recent.len() == lsas.len(),
    ensures
        unique_identities(receipts(nbr, db, lsas, recent).1),
        forall|i: int|
            0 <= i < lsas.len() && #[trigger] accepted_at(nbr, db, lsas, recent, i)
                ==> holds_no_older(receipts(nbr, db, lsas, recent).1, lsas[i]),
    decreases lsas.len(),
{
    if lsas.len() > 0 {
        let init = lsas.drop_last();
        let last = lsas.last();
        let h = last.header();
        let earlier = recent.drop_last();
        lemma_receipts(nbr, db, init, earlier);
        lemma_receipts_prefix(nbr, db, init, recent, earlier, init.len());
        let before = receipts(nbr, db, init, recent);
        let after = receipts(nbr, db, lsas, recent);
        let copy = copy_of(before.1, h);
        let step = before.0.lsu_step(last, copy, recent[lsas.len() - 1], true);
        lemma_installed(before.1, last);
        assert(lsas.take(lsas.len() - 1) =~= init);
        assert forall|i: int|
            0 <= i < lsas.len() && #[trigger] accepted_at(
                nbr,
                db,
                lsas,
                recent,
                i,
            ) implies holds_no_older(after.1, lsas[i]) by {
            let hi = lsas[i].header();
            if i == lsas.len() - 1 {
                assert(step.1.accept);
                lemma_copy_installed(before.1, last, hi);
            } else {
                assert(lsas.take(i) =~= init.take(i));
                assert(init[i] == lsas[i]);
                lemma_receipts_prefix(nbr, db, init.take(i), recent, earlier, i as nat);
                assert(accepted_at(nbr, db, init, earlier, i));
                assert(holds_no_older(before.1, init[i]));
                if step.1.accept {
                    lemma_copy_installed(before.1, last, hi);
                    if hi.same_identity(h) {
                        lemma_copy_installed(before.1, last, h);
                        lemma_accept(before.0, last, copy, recent[lsas.len() - 1]);
                        lemma_same_copy(before.1, hi, h);
                        let e = copy_of(before.1, hi)->0;
                        if hi.freshness(h) == LsaCmpResult::Newer {
                            lemma_newer_transitive(hi, h, e.header());
                        }
                    }
                }
            }
        }
    }
}

/// What becomes of the receipts depends on `recent` only as far as the
/// receipts go.
pub proof fn lemma_receipts_prefix(
    nbr: NeighborModel,
    db: Seq<LsaModel>,
    lsas: Seq<LsaModel>,
    a: Seq<bool>,
    b: Seq<bool>,
    n: nat,
)
    requires
        lsas.len() == n,
        forall|i: int| 0 <= i < n ==> a[i] == b[i],
    ensures
        receipts(nbr, db, lsas, a) == receipts(nbr, db, lsas, b),
    decreases n,
{
    if n > 0 {
        lemma_receipts_prefix(nbr, db, lsas.drop_last(), a, b, (n - 1) as nat);
    }
}

/// Two headers of one identity find the same advertisement in a database.
pub proof fn lemma_same_copy(db: Seq<LsaModel>, a: LsaHeader, b: LsaHeader)
    requires
        a.same_identity(b),
    ensures
        copy_of(db, a) == copy_of(db, b),
        position(db, LsaKey::Identity(a)) == position(db, LsaKey::Identity(b)),
    decreases db.len(),
{
    if db.len() > 0 {
        lemma_same_copy(db.drop_last(), a, b);
        assert(LsaKey::Identity(a).selects(db.last()) == LsaKey::Identity(b).selects(db.last()));
    }
}

} // verus!
