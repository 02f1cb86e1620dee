//! Serving the requests to the database, originating this router's own
//! advertisements, and aging what the database holds.

use vstd::prelude::*;
use crate::config::{LS_REFRESH_TIME, MAX_AGE, MIN_LS_ARRIVAL, MIN_LS_INTERVAL};
use crate::database::{all_fit, contributing, copy_lsas, flushed, following_seq, lemma_installed,
    lemma_position, lemma_without, link_position, link_put, link_table_model, link_values, network_lsa, next_seq,
    origin_header, position, request_models, router_lsa, same_origin, stands_before, unique_identities,
    without_origin, DatabaseRequestType, DatabaseResponse, DbModel, LinkStateDatabase, LsaKey,
    RequestModel, ResponseModel};
use crate::lsa::{lemma_encoding_splits, lemma_sealed, links_encoding, LSA_NETWORK, LSA_ROUTER,
    Lsa, LsaHeader, LsaModel, LsaNetwork, LsaRouter, LsaRouterLink, NetworkModel, RouterLinkModel,
    RouterModel};
use crate::lsa_parse::lemma_u32_list_len;
use crate::packets::lsa_models;
use crate::spf::GraphModel;

verus! {

/// The place of the entry for interface `addr` in a table of links.
pub fn find_link(table: &Vec<(u32, LsaRouterLink)>, addr: u32) -> (at: Option<usize>)
    ensures
        match at {
            Some(i) => link_position(link_table_model(table@), addr) == Some(i as int) && i
                < table@.len(),
            None => link_position(link_table_model(table@), addr) is None,
        },
{
    let ghost model = link_table_model(table@);
    let mut i: usize = 0;
    assert(model.take(0) =~= Seq::<(u32, RouterLinkModel)>::empty());
    while i < table.len()
        invariant
            i <= table.len(),
            model == link_table_model(table@),
            link_position(model.take(i as int), addr) is None,
        decreases table.len() - i,
    {
        proof {
            let next = model.take(i + 1);
            assert(next.drop_last() =~= model.take(i as int));
            assert(next.last().0 == table[i as int].0);
        }
        if table[i].0 == addr {
            proof {
                lemma_link_position_found(model, addr, i as int);
            }
            return Some(i);
        }
        i += 1;
    }
    assert(model.take(i as int) =~= model);
    None
}

/// Where the first `i + 1` entries of a table have one for an interface, the
/// whole table gives the same one.
pub proof fn lemma_link_position_found(table: Seq<(u32, RouterLinkModel)>, addr: u32, i: int)
    requires
        0 <= i < table.len(),
        link_position(table.take(i + 1), addr) is Some,
    ensures
        link_position(table, addr) == link_position(table.take(i + 1), addr),
    decreases table.len(),
{
    if i + 1 < table.len() {
        let init = table.drop_last();
        assert(init.take(i + 1) =~= table.take(i + 1));
        lemma_link_position_found(init, addr, i);
    } else {
        assert(table.take(i + 1) =~= table);
    }
}

/// A copy of a table of links with `link` as the entry for interface `addr`.
pub fn table_with_link(table: &Vec<(u32, LsaRouterLink)>, addr: u32, link: LsaRouterLink) -> (out:
    Vec<(u32, LsaRouterLink)>)
    ensures
        link_table_model(out@) == link_put(link_table_model(table@), addr, link@),
{
    let ghost model = link_table_model(table@);
    let at = find_link(table, addr);
    let mut out: Vec<(u32, LsaRouterLink)> = Vec::new();
    let mut i: usize = 0;
    assert(link_table_model(out@) =~= model.take(0));
    while i < table.len()
        invariant
            i <= table.len(),
            model == link_table_model(table@),
            link_table_model(out@) == model.take(i as int),
        decreases table.len() - i,
    {
        let ghost before = link_table_model(out@);
        out.push((table[i].0, table[i].1.clone()));
        assert(link_table_model(out@) =~= before.push(model[i as int]));
        assert(before.push(model[i as int]) =~= model.take(i + 1));
        i += 1;
    }
    assert(model.take(i as int) =~= model);
    let ghost copied = link_table_model(out@);
    match at {
        Some(p) => {
            let ghost l = link@;
            out[p] = (addr, link);
            assert(link_table_model(out@) =~= copied.update(p as int, (addr, l)));
        },
        None => {
            let ghost l = link@;
            out.push((addr, link));
            assert(link_table_model(out@) =~= copied.push((addr, l)));
        },
    }
    out
}

/// The links of a table, in the table's order.
pub fn links_of(table: &Vec<(u32, LsaRouterLink)>) -> (links: Vec<LsaRouterLink>)
    ensures
        links@.map_values(|l: LsaRouterLink| l@) == link_values(link_table_model(table@)),
{
    let ghost want = link_values(link_table_model(table@));
    let mut links: Vec<LsaRouterLink> = Vec::new();
    let mut i: usize = 0;
    assert(links@.map_values(|l: LsaRouterLink| l@) =~= want.take(0));
    while i < table.len()
        invariant
            i <= table.len(),
            want == link_values(link_table_model(table@)),
            links@.map_values(|l: LsaRouterLink| l@) == want.take(i as int),
        decreases table.len() - i,
    {
        let ghost before = links@.map_values(|l: LsaRouterLink| l@);
        links.push(table[i].1.clone());
        assert(links@.map_values(|l: LsaRouterLink| l@) =~= before.push(want[i as int]));
        assert(before.push(want[i as int]) =~= want.take(i + 1));
        i += 1;
    }
    assert(want.take(i as int) =~= want);
    links
}

/// Sets length and checksum of `lsa` if its bytes fit the 16-bit length
/// field; says whether they do.
pub fn seal(lsa: &mut Lsa) -> (fits: bool)
    ensures
        fits == (old(lsa)@.encoding().len() <= 0xFFFF),
        fits ==> final(lsa)@ == old(lsa)@.sealed() && final(lsa)@.checksum_valid(),
        !fits ==> final(lsa)@ == old(lsa)@,
        final(lsa)@.encoding().len() == old(lsa)@.encoding().len(),
        old(lsa)@.sealed().encoding().len() == old(lsa)@.encoding().len(),
{
    proof {
        let l = lsa@;
        let w = l.with_length();
        lemma_encoding_splits(l, w.header());
        lemma_encoding_splits(w, l.sealed().header());
    }
    let len = lsa.encode().len();
    if len <= 0xFFFF {
        lsa.set_checksum_length();
        true
    } else {
        false
    }
}

impl DbModel {
    /// The advertisement `l` after `secs` seconds: older by that much, but
    /// no older than the maximum age.
    pub open spec fn aged(l: LsaModel, secs: u64) -> LsaModel {
        l.with_header(
            LsaHeader {
                age: if l.header().age + secs >= MAX_AGE {
                    MAX_AGE as u16
                } else {
                    (l.header().age + secs) as u16
                },
                ..l.header()
            },
        )
    }

    /// The advertisement `l` as this router originates it anew: with age 0,
    /// the sequence number `seq`, and length and checksum set.
    pub open spec fn refreshed(l: LsaModel, seq: i32) -> LsaModel {
        l.with_header(LsaHeader { age: 0, sequence_number: seq, ..l.header() }).sealed()
    }

    /// After `secs` seconds, the advertisement `l` is due to be originated
    /// anew: this router originated it, and it has reached the refresh age.
    pub open spec fn due(self, l: LsaModel, secs: u64) -> bool {
        l.header().advertising_router == self.config.router_id && l.header().age + secs
            >= LS_REFRESH_TIME
    }

    /// After `secs` seconds, the advertisement `l` has reached the maximum
    /// age.
    pub open spec fn expired(l: LsaModel, secs: u64) -> bool {
        l.header().age + secs >= MAX_AGE
    }

    /// The clock `secs` seconds on; it stops at the highest value.
    pub open spec fn later(self, secs: u64) -> u64 {
        if self.clock + secs > u64::MAX {
            u64::MAX
        } else {
            (self.clock + secs) as u64
        }
    }

    /// What `secs` seconds make of the first `upto` advertisements: the
    /// advertisements that stay, those among them that this router has
    /// originated anew, the sequence number last used, and the times at
    /// which those that stay were installed.
    ///
    /// An advertisement of this router that has reached the refresh age is
    /// originated anew with the next sequence number, at the new time; where
    /// the sequence numbers have started over, so that it stands in the way
    /// of that, it is flushed first: it stays at the maximum age, and goes
    /// out so. Any other that has reached the maximum age is dropped. The
    /// rest grow older.
    pub open spec fn sweep(self, secs: u64, upto: nat) -> (
        Seq<LsaModel>,
        Seq<LsaModel>,
        i32,
        Seq<u64>,
    )
        decreases upto,
    {
        if upto == 0 {
            (Seq::empty(), Seq::empty(), self.seq, Seq::empty())
        } else {
            let before = self.sweep(secs, (upto - 1) as nat);
            let l = self.lsas[upto - 1];
            if self.due(l, secs) && stands_before(l.header(), next_seq(before.2)) {
                (
                    before.0.push(flushed(l)),
                    before.1.push(flushed(l)),
                    before.2,
                    before.3.push(self.later(secs)),
                )
            } else if self.due(l, secs) {
                let fresh = DbModel::refreshed(l, next_seq(before.2));
                (
                    before.0.push(fresh),
                    before.1.push(fresh),
                    next_seq(before.2),
                    before.3.push(self.later(secs)),
                )
            } else if DbModel::expired(l, secs) {
                before
            } else {
                (
                    before.0.push(DbModel::aged(l, secs)),
                    before.1,
                    before.2,
                    before.3.push(self.stamps[upto - 1]),
                )
            }
        }
    }

    /// The database after the originations `waiting` have been taken up
    /// again, the last one first, and the advertisements originated, added
    /// to `fresh`. An origination whose time has not come yet waits on.
    pub open spec fn settle(self, fresh: Seq<LsaModel>, waiting: Seq<RequestModel>) -> (
        DbModel,
        Seq<LsaModel>,
    )
        decreases waiting.len(),
    {
        if waiting.len() == 0 {
            (self, fresh)
        } else {
            let r = self.serve(waiting.last());
            r.0.settle(
                match r.1 {
                    ResponseModel::Lsa(l) => fresh.push(l),
                    _ => fresh,
                },
                waiting.drop_last(),
            )
        }
    }

    /// The database after `secs` seconds, and the advertisements that this
    /// router has originated in the course of them: first the database is
    /// swept, then the originations that were put off are taken up again.
    pub open spec fn after(self, secs: u64) -> (DbModel, Seq<LsaModel>) {
        let swept = self.sweep(secs, self.lsas.len());
        DbModel {
            lsas: swept.0,
            stamps: swept.3,
            seq: swept.2,
            clock: self.later(secs),
            pending: Seq::empty(),
            ..self
        }.settle(swept.1, self.pending)
    }

    /// The request installs or removes an advertisement, so that the routes
    /// are computed anew.
    pub open spec fn recalculates(self, req: RequestModel) -> bool {
        match req {
            RequestModel::AddOrUpdateLsa(l) => self.adding(l).1 is UpdateDone,
            RequestModel::RemoveLsa(h) => self.removing(h).1 is UpdateDone,
            RequestModel::GenRouterLsa(link, addr) => self.gen_router(link, addr).1 is Lsa,
            RequestModel::GenNetworkLsa(addr, mask, nbrs) => self.gen_network(
                addr,
                mask,
                nbrs,
            ).1 is Lsa,
            _ => false,
        }
    }
}

/// The sequence number of `now` is not below that of `held`, unless `held`
/// has reached the maximum age.
pub open spec fn not_lowered(held: LsaHeader, now: LsaHeader) -> bool {
    held.age < MAX_AGE ==> now.sequence_number >= held.sequence_number
}

/// What a sweep keeps has the identities of what it started from, in the
/// same order, with sequence numbers that are not lower; every
/// advertisement it keeps fits the length field, and each has the time it
/// was installed at.
#[verifier::rlimit(40)]
pub proof fn lemma_sweep(db: DbModel, secs: u64, upto: nat)
    requires
        db.wf(),
        upto <= db.lsas.len(),
    ensures
        unique_identities(db.sweep(secs, upto).0),
        all_fit(db.sweep(secs, upto).0),
        db.sweep(secs, upto).3.len() == db.sweep(secs, upto).0.len(),
        forall|k: int|
            0 <= k < db.sweep(secs, upto).0.len() ==> exists|j: int|
                0 <= j < upto && (#[trigger] db.sweep(secs, upto).0[k]).header().same_identity(
                    db.lsas[j].header(),
                ) && not_lowered(db.lsas[j].header(), db.sweep(secs, upto).0[k].header()),
    decreases upto,
{
    if upto > 0 {
        let before = db.sweep(secs, (upto - 1) as nat);
        let now = db.sweep(secs, upto);
        lemma_sweep(db, secs, (upto - 1) as nat);
        let l = db.lsas[upto - 1];
        assert(l.encoding().len() <= 0xFFFF);
        if db.due(l, secs) || !DbModel::expired(l, secs) {
            let kept = now.0.last();
            let h = LsaHeader { age: 0, sequence_number: next_seq(before.2), ..l.header() };
            let plain = l.with_header(h);
            lemma_encoding_splits(l, h);
            lemma_encoding_splits(plain, plain.with_length().header());
            lemma_encoding_splits(plain.with_length(), plain.sealed().header());
            lemma_encoding_splits(l, DbModel::aged(l, secs).header());
            lemma_encoding_splits(l, flushed(l).header());
            assert(kept.header().same_identity(l.header()));
            assert(not_lowered(l.header(), kept.header()));
            assert(kept.encoding().len() == l.encoding().len());
            assert(now.0 == before.0.push(kept));
            assert forall|k: int| 0 <= k < now.0.len() implies exists|j: int|
                0 <= j < upto && (#[trigger] now.0[k]).header().same_identity(
                    db.lsas[j].header(),
                ) && not_lowered(db.lsas[j].header(), now.0[k].header()) by {
                if k < before.0.len() {
                    let j = choose|j: int|
                        0 <= j < upto - 1 && before.0[k].header().same_identity(
                            db.lsas[j].header(),
                        ) && not_lowered(db.lsas[j].header(), before.0[k].header());
                    assert(now.0[k].header().same_identity(db.lsas[j].header()));
                    assert(not_lowered(db.lsas[j].header(), now.0[k].header()));
                } else {
                    assert(now.0[k].header().same_identity(db.lsas[upto - 1].header()));
                    assert(not_lowered(db.lsas[upto - 1].header(), now.0[k].header()));
                }
            }
            assert forall|a: int, b: int|
                0 <= a < now.0.len() && 0 <= b < now.0.len() && a != b implies !(
            #[trigger] now.0[a]).header().same_identity((#[trigger] now.0[b]).header()) by {
                if a < before.0.len() && b < before.0.len() {
                    assert(!before.0[a].header().same_identity(before.0[b].header()));
                } else {
                    let o = if a < before.0.len() {
                        a
                    } else {
                        b
                    };
                    let j = choose|j: int|
                        0 <= j < upto - 1 && before.0[o].header().same_identity(
                            db.lsas[j].header(),
                        );
                    assert(!db.lsas[j].header().same_identity(db.lsas[upto - 1].header()));
                }
            }
        }
    }
}

/// An advertisement that this router originates is at age 0 and carries
/// the sequence number it was made with; one that is flushed is at the
/// maximum age and keeps its identity and sequence number.
pub proof fn lemma_origin_headers(router_id: u32, seq: i32, links: Seq<RouterLinkModel>, addr: u32,
    mask: u32, nbrs: Seq<u32>, held: LsaModel)
    ensures
        router_lsa(router_id, seq, links).header().age == 0,
        router_lsa(router_id, seq, links).header().sequence_number == seq,
        network_lsa(router_id, seq, addr, mask, nbrs).header().age == 0,
        network_lsa(router_id, seq, addr, mask, nbrs).header().sequence_number == seq,
        flushed(held).header().age == MAX_AGE,
        flushed(held).header().same_identity(held.header()),
        flushed(held).header().sequence_number == held.header().sequence_number,
        flushed(held).encoding().len() == held.encoding().len(),
{
    let r = LsaModel::Router(
        RouterModel {
            header: origin_header(LSA_ROUTER, router_id, router_id, seq),
            flags: 0,
            num_links: (links.len() % 0x1_0000) as u16,
            links,
        },
    );
    let n = LsaModel::Network(
        NetworkModel {
            header: origin_header(LSA_NETWORK, addr, router_id, seq),
            network_mask: mask,
            attached_routers: seq![router_id] + nbrs,
        },
    );
    lemma_encoding_splits(r, r.with_length().header());
    lemma_encoding_splits(r.with_length(), r.sealed().header());
    lemma_encoding_splits(n, n.with_length().header());
    lemma_encoding_splits(n.with_length(), n.sealed().header());
    lemma_encoding_splits(held, flushed(held).header());
}

/// Nothing stands in the way of an advertisement with the header `h`
/// only if every advertisement of its identity that the database holds and
/// that has not reached the maximum age has a lower sequence number.
pub proof fn lemma_nothing_in_the_way(db: DbModel, h: LsaHeader, i: int)
    requires
        db.wf(),
        db.blocking(h) is None,
        0 <= i < db.lsas.len(),
        db.lsas[i].header().same_identity(h),
        db.lsas[i].header().age < MAX_AGE,
    ensures
        h.sequence_number > db.lsas[i].header().sequence_number,
{
    let key = LsaKey::Identity(h);
    lemma_position(db.lsas, key);
    assert(key.selects(db.lsas[i]));
    let j = position(db.lsas, key)->Some_0;
    assert(db.lsas[j].header().same_identity(db.lsas[i].header()));
    assert(j == i);
}

/// Sequence numbers only grow. Where the database answers an origination
/// with an advertisement that is not at the maximum age while it holds one
/// of the same identity that has not reached the maximum age either, the
/// answer has the greater sequence number.
pub proof fn lemma_sequence_grows(db: DbModel, req: RequestModel, i: int)
    requires
        db.wf(),
        req is GenRouterLsa || req is GenNetworkLsa,
        db.serve(req).1 is Lsa,
        db.serve(req).1->Lsa_0.header().age < MAX_AGE,
        0 <= i < db.lsas.len(),
        db.lsas[i].header().same_identity(db.serve(req).1->Lsa_0.header()),
        db.lsas[i].header().age < MAX_AGE,
    ensures
        db.serve(req).1->Lsa_0.header().sequence_number > db.lsas[i].header().sequence_number,
{
    let seq = next_seq(db.seq);
    match req {
        RequestModel::GenRouterLsa(link, addr) => {
            let links = link_values(link_put(db.links, addr, link));
            let lsa = router_lsa(db.config.router_id, seq, links);
            match db.blocking(lsa.header()) {
                Some(j) => {
                    lemma_origin_headers(db.config.router_id, seq, links, 0, 0, Seq::empty(), db.lsas[j]);
                },
                None => {
                    lemma_origin_headers(db.config.router_id, seq, links, 0, 0, Seq::empty(), lsa);
                    lemma_nothing_in_the_way(db, lsa.header(), i);
                },
            }
        },
        RequestModel::GenNetworkLsa(addr, mask, nbrs) => {
            let lsa = network_lsa(db.config.router_id, seq, addr, mask, nbrs);
            match db.blocking(lsa.header()) {
                Some(j) => {
                    lemma_origin_headers(db.config.router_id, seq, Seq::empty(), addr, mask, nbrs, db.lsas[j]);
                },
                None => {
                    lemma_origin_headers(db.config.router_id, seq, Seq::empty(), addr, mask, nbrs, lsa);
                    lemma_nothing_in_the_way(db, lsa.header(), i);
                },
            }
        },
        _ => {},
    }
}

/// A list of links takes at least 12 bytes for each link.
pub proof fn lemma_links_len(links: Seq<RouterLinkModel>)
    ensures
        links_encoding(links).len() >= 12 * links.len(),
    decreases links.len(),
{
    if links.len() > 0 {
        lemma_links_len(links.drop_last());
    }
}

/// A network advertisement that this router originates is well-formed, so
/// that it is read back from its bytes as it is.
pub proof fn lemma_network_lsa_wf(router_id: u32, seq: i32, addr: u32, mask: u32, nbrs: Seq<u32>)
    requires
        network_lsa(router_id, seq, addr, mask, nbrs).encoding().len() <= 0xFFFF,
    ensures
        network_lsa(router_id, seq, addr, mask, nbrs).wf(),
{
    let attached = seq![router_id] + nbrs;
    let plain = LsaModel::Network(
        NetworkModel {
            header: origin_header(LSA_NETWORK, addr, router_id, seq),
            network_mask: mask,
            attached_routers: attached,
        },
    );
    let sealed = plain.sealed();
    lemma_encoding_splits(plain, plain.with_length().header());
    lemma_encoding_splits(plain.with_length(), sealed.header());
    lemma_u32_list_len(attached);
    assert(plain.encoding().len() == 24 + 4 * attached.len());
    assert(sealed.header().length == 24 + 4 * attached.len());
}

/// A router advertisement that this router originates from well-formed
/// links is well-formed, so that it is read back from its bytes as it is.
pub proof fn lemma_router_lsa_wf(router_id: u32, seq: i32, links: Seq<RouterLinkModel>)
    requires
        forall|i: int| 0 <= i < links.len() ==> (#[trigger] links[i]).wf(),
        router_lsa(router_id, seq, links).encoding().len() <= 0xFFFF,
    ensures
        router_lsa(router_id, seq, links).wf(),
{
    let r = RouterModel {
        header: origin_header(LSA_ROUTER, router_id, router_id, seq),
        flags: 0,
        num_links: (links.len() % 0x1_0000) as u16,
        links,
    };
    let plain = LsaModel::Router(r);
    let h = plain.sealed().header();
    lemma_sealed(plain);
    lemma_links_len(links);
    lemma_encoding_splits(plain, h);
    assert(plain.encoding().len() == r.encoding().len());
    assert(r.encoding().len() == 20 + 2 + 2 + links_encoding(links).len());
    assert(links.len() < 0x1_0000);
    assert(plain.sealed() == LsaModel::Router(RouterModel { header: h, ..r }));
    assert(h.ls_type == LSA_ROUTER);
}

/// Installing an advertisement that fits the length field keeps the
/// database well-formed.
pub proof fn lemma_with_lsa(db: DbModel, lsa: LsaModel)
    requires
        db.wf(),
        lsa.encoding().len() <= 0xFFFF,
    ensures
        db.with_lsa(lsa).wf(),
        db.originated(lsa).wf(),
{
    lemma_installed(db.lsas, lsa);
    crate::database::lemma_position(db.lsas, LsaKey::Identity(lsa.header()));
}

/// Whether the two requests originate the same advertisement.
pub fn originate_the_same(a: &DatabaseRequestType, b: &DatabaseRequestType) -> (same: bool)
    ensures
        same == same_origin(a@, b@),
{
    match a {
        DatabaseRequestType::GenRouterLsa(_, _) => match b {
            DatabaseRequestType::GenRouterLsa(_, _) => true,
            _ => false,
        },
        DatabaseRequestType::GenNetworkLsa(addr, _, _) => match b {
            DatabaseRequestType::GenNetworkLsa(other, _, _) => *addr == *other,
            _ => false,
        },
        _ => false,
    }
}

impl LinkStateDatabase {
    /// The routes are those of the advertisements that the database holds
    /// and that have not reached the maximum age.
    pub open spec fn routes_current(&self) -> bool {
        &&& self.route_table.wf()
        &&& exists|searched: GraphModel|
            self.route_table.graph().computed_from(
                contributing(self@.lsas),
                self@.config.router_id,
                searched,
            )
        &&& self.route_table.entries@ == self.route_table.graph().routes(
            self@.ints,
            self@.config.router_id,
            self.route_table.nodes@.len(),
        )
    }

    /// The router advertisement of this router with the given links and
    /// sequence number, if its bytes fit the 16-bit length field.
    pub fn make_router_lsa(&self, links: Vec<LsaRouterLink>, seq: i32) -> (made: Option<Lsa>)
        ensures
            match made {
                Some(lsa) => lsa@ == router_lsa(
                    self@.config.router_id,
                    seq,
                    links@.map_values(|l: LsaRouterLink| l@),
                ) && lsa@.encoding().len() <= 0xFFFF && lsa@.checksum_valid() && ((forall|i: int|
                    0 <= i < links@.len() ==> (#[trigger] links@[i])@.wf()) ==> lsa@.wf()),
                None => router_lsa(
                    self@.config.router_id,
                    seq,
                    links@.map_values(|l: LsaRouterLink| l@),
                ).encoding().len() > 0xFFFF,
            },
    {
        let ghost given = links@.map_values(|l: LsaRouterLink| l@);
        let mut lsa = Lsa::LsaRouter(
            LsaRouter {
                header: LsaHeader {
                    age: 0,
                    options: 0x02,
                    ls_type: LSA_ROUTER,
                    link_state_id: self.global_config.router_id,
                    advertising_router: self.global_config.router_id,
                    sequence_number: seq,
                    checksum: 0,
                    length: 0,
                },
                flags: 0,
                num_links: (links.len() % 0x1_0000) as u16,
                links,
            },
        );
        if seal(&mut lsa) {
            proof {
                if forall|i: int| 0 <= i < given.len() ==> (#[trigger] given[i]).wf() {
                    lemma_router_lsa_wf(self@.config.router_id, seq, given);
                }
            }
            Some(lsa)
        } else {
            None
        }
    }

    /// The network advertisement of this router for the network of its
    /// interface `int_addr`, to which this router and then `neighbors` are
    /// attached, if its bytes fit the 16-bit length field.
    pub fn make_network_lsa(&self, int_addr: u32, int_mask: u32, neighbors: &Vec<u32>, seq: i32)
        -> (made: Option<Lsa>)
        ensures
            match made {
                Some(lsa) => lsa@ == network_lsa(
                    self@.config.router_id,
                    seq,
                    int_addr,
                    int_mask,
                    neighbors@,
                ) && lsa@.encoding().len() <= 0xFFFF && lsa@.checksum_valid() && lsa@.wf(),
                None => network_lsa(
                    self@.config.router_id,
                    seq,
                    int_addr,
                    int_mask,
                    neighbors@,
                ).encoding().len() > 0xFFFF,
            },
    {
        let mut attached_routers: Vec<u32> = Vec::new();
        attached_routers.push(self.global_config.router_id);
        let mut i: usize = 0;
        while i < neighbors.len()
            invariant
                i <= neighbors.len(),
                attached_routers@ == seq![self.global_config.router_id] + neighbors@.take(
                    i as int,
                ),
            decreases neighbors.len() - i,
        {
            attached_routers.push(neighbors[i]);
            i += 1;
            assert(attached_routers@ =~= seq![self.global_config.router_id] + neighbors@.take(
                i as int,
            ));
        }
        assert(neighbors@.take(i as int) =~= neighbors@);
        let mut lsa = Lsa::LsaNetwork(
            LsaNetwork {
                header: LsaHeader {
                    age: 0,
                    options: 0x02,
                    ls_type: LSA_NETWORK,
                    link_state_id: int_addr,
                    advertising_router: self.global_config.router_id,
                    sequence_number: seq,
                    checksum: 0,
                    length: 0,
                },
                network_mask: int_mask,
                attached_routers,
            },
        );
        if seal(&mut lsa) {
            proof {
                lemma_network_lsa_wf(
                    self.global_config.router_id,
                    seq,
                    int_addr,
                    int_mask,
                    neighbors@,
                );
            }
            Some(lsa)
        } else {
            None
        }
    }

    /// Puts the origination `req` off: it takes the place of any
    /// origination of the same advertisement that waits already.
    pub fn defer(&mut self, req: DatabaseRequestType)
        ensures
            final(self)@ == old(self)@.deferring(req@),
            final(self).route_table == old(self).route_table,
    {
        let ghost before = request_models(self.pending@);
        let mut i: usize = self.pending.len();
        assert(before.skip(i as int) =~= Seq::<RequestModel>::empty());
        assert(request_models(self.pending@) =~= before.take(i as int) + without_origin(
            before.skip(i as int),
            req@,
        ));
        while i > 0
            invariant
                i <= before.len(),
                i <= self.pending@.len(),
                self@ == (DbModel { pending: request_models(self.pending@), ..old(self)@ }),
                self.route_table == old(self).route_table,
                request_models(self.pending@) == before.take(i as int) + without_origin(
                    before.skip(i as int),
                    req@,
                ),
            decreases i,
        {
            i -= 1;
            let ghost rest = without_origin(before.skip(i + 1), req@);
            let ghost list = self.pending@;
            proof {
                assert(before.skip(i as int).drop_first() =~= before.skip(i + 1));
                assert(before.skip(i as int).first() == before[i as int]);
                assert(request_models(list)[i as int] == before[i as int]);
            }
            proof {
                assert(request_models(list) == before.take(i + 1) + rest);
                assert(before.take(i + 1) =~= before.take(i as int).push(before[i as int]));
            }
            if originate_the_same(&self.pending[i], &req) {
                let _ = self.pending.remove(i);
                assert(request_models(self.pending@) =~= request_models(list).remove(i as int));
                assert((before.take(i + 1) + rest).remove(i as int) =~= before.take(i as int)
                    + rest);
            } else {
                assert(request_models(self.pending@) =~= before.take(i as int) + (
                seq![before[i as int]] + rest));
            }
        }
        proof {
            assert(before.skip(0) =~= before);
            assert(before.take(0) + without_origin(before, req@) =~= without_origin(before, req@));
        }
        let ghost kept = request_models(self.pending@);
        let ghost model = req@;
        self.pending.push(req);
        assert(request_models(self.pending@) =~= kept.push(model));
    }

    /// Installs `lsa`, if it fits the 16-bit length field.
    pub fn add_lsa(&mut self, lsa: Lsa) -> (r: (DatabaseResponse, bool))
        requires
            old(self)@.wf(),
        ensures
            final(self)@ == old(self)@.adding(lsa@).0,
            r.0@ == old(self)@.adding(lsa@).1,
            r.1 == (r.0@ is UpdateDone),
            final(self)@.wf(),
            final(self).route_table == old(self).route_table,
    {
        if lsa.encode().len() <= 0xFFFF {
            proof {
                lemma_with_lsa(self@, lsa@);
            }
            self.install(lsa);
            (DatabaseResponse::UpdateDone, true)
        } else {
            (DatabaseResponse::Refused, false)
        }
    }

    /// Removes the advertisement with exactly the header `hdr`.
    pub fn remove_lsa(&mut self, hdr: LsaHeader) -> (r: (DatabaseResponse, bool))
        requires
            old(self)@.wf(),
        ensures
            final(self)@ == old(self)@.removing(hdr).0,
            r.0@ == old(self)@.removing(hdr).1,
            r.1 == (r.0@ is UpdateDone),
            final(self)@.wf(),
            final(self).route_table == old(self).route_table,
    {
        match self.find(&LsaKey::Header(hdr)) {
            Some(i) => {
                let ghost lsas = self@.lsas;
                self.lsa_list.remove(i);
                self.installed_at.remove(i);
                proof {
                    assert(lsa_models(self.lsa_list@) =~= lsas.remove(i as int));
                    lemma_without(old(self)@, i as int);
                }
                (DatabaseResponse::UpdateDone, true)
            },
            None => (DatabaseResponse::NotFound, false),
        }
    }

    /// Notes `link` as the link of the interface `int_addr` and originates
    /// the router advertisement anew, or puts that off where it is too soon
    /// or where the advertisement held has to be flushed first.
    #[verifier::rlimit(80)]
    pub fn gen_router_lsa(&mut self, link: LsaRouterLink, int_addr: u32) -> (r: (
        DatabaseResponse,
        bool,
    ))
        requires
            old(self)@.wf(),
        ensures
            final(self)@ == old(self)@.gen_router(link@, int_addr).0,
            r.0@ == old(self)@.gen_router(link@, int_addr).1,
            r.1 == (r.0@ is Lsa),
            final(self)@.wf(),
            final(self).route_table == old(self).route_table,
    {
        let ghost before = self@;
        let table = table_with_link(&self.each_int_link, int_addr, link.clone());
        let seq = following_seq(self.cur_lsa_seq_num);
        let ghost links = link_put(before.links, int_addr, link@);
        let ghost want = router_lsa(before.config.router_id, next_seq(before.seq), link_values(links));
        match self.make_router_lsa(links_of(&table), seq) {
            None => (DatabaseResponse::Refused, false),
            Some(lsa) => {
                assert(lsa@ == want);
                let soon = self.held_less_than(lsa.get_hdr(), MIN_LS_INTERVAL);
                assert(soon == before.too_soon(want.header()));
                self.each_int_link = table;
                assert(self@ == (DbModel { links, ..before }));
                if soon {
                    self.defer(DatabaseRequestType::GenRouterLsa(link, int_addr));
                    (DatabaseResponse::UpdateDone, false)
                } else {
                    match self.blocked_at(lsa.get_hdr()) {
                        Some(i) => {
                            assert(before.blocking(want.header()) == Some(i as int));
                            let out = self.take_out(i);
                            self.defer(DatabaseRequestType::GenRouterLsa(link, int_addr));
                            (DatabaseResponse::Lsa(out), true)
                        },
                        None => {
                            assert(before.blocking(want.header()) is None);
                            proof {
                                lemma_with_lsa(self@, want);
                            }
                            self.cur_lsa_seq_num = seq;
                            self.install(lsa.clone());
                            assert(self@ == (DbModel { links, ..before }).originated(want));
                            (DatabaseResponse::Lsa(lsa), true)
                        },
                    }
                }
            },
        }
    }

    /// Originates the network advertisement of the interface `int_addr`
    /// anew, or puts that off where it is too soon or where the
    /// advertisement held has to be flushed first.
    #[verifier::rlimit(80)]
    pub fn gen_network_lsa(&mut self, int_addr: u32, int_mask: u32, neighbors: Vec<u32>) -> (r: (
        DatabaseResponse,
        bool,
    ))
        requires
            old(self)@.wf(),
        ensures
            final(self)@ == old(self)@.gen_network(int_addr, int_mask, neighbors@).0,
            r.0@ == old(self)@.gen_network(int_addr, int_mask, neighbors@).1,
            r.1 == (r.0@ is Lsa),
            final(self)@.wf(),
            final(self).route_table == old(self).route_table,
    {
        let ghost before = self@;
        let seq = following_seq(self.cur_lsa_seq_num);
        let ghost want = network_lsa(
            before.config.router_id,
            next_seq(before.seq),
            int_addr,
            int_mask,
            neighbors@,
        );
        match self.make_network_lsa(int_addr, int_mask, &neighbors, seq) {
            None => (DatabaseResponse::Refused, false),
            Some(lsa) => {
                assert(lsa@ == want);
                let soon = self.held_less_than(lsa.get_hdr(), MIN_LS_INTERVAL);
                assert(soon == before.too_soon(want.header()));
                if soon {
                    self.defer(DatabaseRequestType::GenNetworkLsa(int_addr, int_mask, neighbors));
                    (DatabaseResponse::UpdateDone, false)
                } else {
                    match self.blocked_at(lsa.get_hdr()) {
                        Some(i) => {
                            let out = self.take_out(i);
                            self.defer(
                                DatabaseRequestType::GenNetworkLsa(int_addr, int_mask, neighbors),
                            );
                            (DatabaseResponse::Lsa(out), true)
                        },
                        None => {
                            proof {
                                lemma_with_lsa(self@, want);
                            }
                            self.cur_lsa_seq_num = seq;
                            self.install(lsa.clone());
                            assert(self@ == before.originated(want));
                            (DatabaseResponse::Lsa(lsa), true)
                        },
                    }
                }
            },
        }
    }

    /// Changes the database as the request asks and gives the answer, and
    /// says whether the routes are to be computed anew.
    #[verifier::rlimit(40)]
    pub fn apply(&mut self, req: DatabaseRequestType) -> (r: (DatabaseResponse, bool))
        requires
            old(self)@.wf(),
        ensures
            final(self)@ == old(self)@.serve(req@).0,
            r.0@ == old(self)@.serve(req@).1,
            r.1 == old(self)@.recalculates(req@),
            final(self)@.wf(),
            final(self).route_table == old(self).route_table,
    {
        match req {
            DatabaseRequestType::QueryConfig => (
                DatabaseResponse::Config(self.global_config),
                false,
            ),
            DatabaseRequestType::ChangeConfig(new_config) => {
                self.global_config = new_config;
                (DatabaseResponse::UpdateDone, false)
            },
            DatabaseRequestType::AddOrUpdateLsa(lsa) => self.add_lsa(lsa),
            DatabaseRequestType::QueryAllLsa => (
                DatabaseResponse::LsaList(copy_lsas(&self.lsa_list)),
                false,
            ),
            DatabaseRequestType::QueryAllLsaByType(ls_type) => (
                DatabaseResponse::LsaList(self.select(&LsaKey::Type(ls_type))),
                false,
            ),
            DatabaseRequestType::QueryLsaByHdr(hdr) => (
                self.lookup(&LsaKey::Identity(hdr)),
                false,
            ),
            DatabaseRequestType::QueryRecent(hdr) => (
                DatabaseResponse::Recent(self.held_less_than(&hdr, MIN_LS_ARRIVAL)),
                false,
            ),
            DatabaseRequestType::QueryLsaByLSID(lsid) => (self.lookup(&LsaKey::Lsid(lsid)), false),
            DatabaseRequestType::QueryLsaByLSIDAdvRouter(lsid, adv_router) => (
                self.lookup(&LsaKey::LsidAdv(lsid, adv_router)),
                false,
            ),
            DatabaseRequestType::QueryMultiLsa(queries) => (
                DatabaseResponse::LsaList(self.query_multi(&queries)),
                false,
            ),
            DatabaseRequestType::RemoveLsa(hdr) => self.remove_lsa(hdr),
            DatabaseRequestType::GenRouterLsa(link, int_addr) => self.gen_router_lsa(
                link,
                int_addr,
            ),
            DatabaseRequestType::GenNetworkLsa(int_addr, int_mask, neighbors) => {
                self.gen_network_lsa(int_addr, int_mask, neighbors)
            },
        }
    }

    /// Serves one request: changes the database as the request asks and
    /// gives the answer. Where an advertisement is installed or removed, the
    /// routes are computed anew.
    pub fn handle_request(&mut self, req: DatabaseRequestType) -> (resp: DatabaseResponse)
        requires
            old(self)@.wf(),
        ensures
            final(self)@ == old(self)@.serve(req@).0,
            resp@ == old(self)@.serve(req@).1,
            final(self)@.wf(),
            if old(self)@.recalculates(req@) {
                final(self).routes_current()
            } else {
                final(self).route_table == old(self).route_table
            },
    {
        let (resp, recalculate) = self.apply(req);
        if recalculate {
            self.update_route_table();
        }
        resp
    }

    /// Lets `secs` seconds pass over the database. An advertisement of this
    /// router that has reached the refresh age is originated anew with the
    /// next sequence number, or flushed where it stands in the way of that.
    /// Any other advertisement that has reached the maximum age is dropped,
    /// and the rest grow older. Then the originations that were put off are
    /// taken up again. What this router has originated or flushed is handed
    /// back, to be flooded. The routes are computed anew.
    #[verifier::rlimit(40)]
    pub fn lsa_aging(&mut self, secs: u64) -> (fresh: Vec<Lsa>)
        requires
            old(self)@.wf(),
        ensures
            final(self)@ == old(self)@.after(secs).0,
            lsa_models(fresh@) == old(self)@.after(secs).1,
            final(self)@.wf(),
            final(self).routes_current(),
    {
        let ghost before = self@;
        let router_id = self.global_config.router_id;
        let now = self.clock.saturating_add(secs);
        let mut kept: Vec<Lsa> = Vec::new();
        let mut stamps: Vec<u64> = Vec::new();
        let mut fresh: Vec<Lsa> = Vec::new();
        let mut seq = self.cur_lsa_seq_num;
        let mut i: usize = 0;
        assert(lsa_models(kept@) =~= Seq::<LsaModel>::empty());
        assert(lsa_models(fresh@) =~= Seq::<LsaModel>::empty());
        while i < self.lsa_list.len()
            invariant
                i <= self.lsa_list.len(),
                self@ == before,
                before.wf(),
                router_id == before.config.router_id,
                now == before.later(secs),
                before.lsas.len() == self.lsa_list@.len(),
                (lsa_models(kept@), lsa_models(fresh@), seq, stamps@) == before.sweep(
                    secs,
                    i as nat,
                ),
            decreases self.lsa_list.len() - i,
        {
            let lsa = &self.lsa_list[i];
            let ghost l = lsa@;
            let ghost kept_before = lsa_models(kept@);
            let ghost fresh_before = lsa_models(fresh@);
            assert(before.lsas[i as int] == l);
            assert(l.encoding().len() <= 0xFFFF);
            let hdr = *lsa.get_hdr();
            let total: u64 = (hdr.age as u64).saturating_add(secs);
            let due = hdr.advertising_router == router_id && total >= LS_REFRESH_TIME as u64;
            if due && (hdr.age as u32) < MAX_AGE && hdr.sequence_number >= following_seq(seq) {
                let mut copy = lsa.clone();
                let last = LsaHeader {
                    age: MAX_AGE as u16,
                    options: hdr.options,
                    ls_type: hdr.ls_type,
                    link_state_id: hdr.link_state_id,
                    advertising_router: hdr.advertising_router,
                    sequence_number: hdr.sequence_number,
                    checksum: hdr.checksum,
                    length: hdr.length,
                };
                copy.set_hdr(last);
                assert(copy@ == flushed(l));
                let ghost model = copy@;
                fresh.push(copy.clone());
                kept.push(copy);
                stamps.push(now);
                assert(lsa_models(kept@) =~= kept_before.push(model));
                assert(lsa_models(fresh@) =~= fresh_before.push(model));
            } else if due {
                seq = following_seq(seq);
                let mut copy = lsa.clone();
                let renewed = LsaHeader {
                    age: 0,
                    options: hdr.options,
                    ls_type: hdr.ls_type,
                    link_state_id: hdr.link_state_id,
                    advertising_router: hdr.advertising_router,
                    sequence_number: seq,
                    checksum: hdr.checksum,
                    length: hdr.length,
                };
                copy.set_hdr(renewed);
                proof {
                    lemma_encoding_splits(l, renewed);
                }
                let fits = seal(&mut copy);
                assert(fits);
                assert(copy@ == DbModel::refreshed(l, seq));
                let ghost model = copy@;
                fresh.push(copy.clone());
                kept.push(copy);
                stamps.push(now);
                assert(lsa_models(kept@) =~= kept_before.push(model));
                assert(lsa_models(fresh@) =~= fresh_before.push(model));
            } else if total >= MAX_AGE as u64 {
            } else {
                let mut copy = lsa.clone();
                let older = LsaHeader {
                    age: total as u16,
                    options: hdr.options,
                    ls_type: hdr.ls_type,
                    link_state_id: hdr.link_state_id,
                    advertising_router: hdr.advertising_router,
                    sequence_number: hdr.sequence_number,
                    checksum: hdr.checksum,
                    length: hdr.length,
                };
                copy.set_hdr(older);
                assert(copy@ == DbModel::aged(l, secs));
                let ghost model = copy@;
                kept.push(copy);
                stamps.push(self.installed_at[i]);
                assert(lsa_models(kept@) =~= kept_before.push(model));
            }
            i += 1;
        }
        proof {
            lemma_sweep(before, secs, before.lsas.len());
        }
        self.lsa_list = kept;
        self.installed_at = stamps;
        self.cur_lsa_seq_num = seq;
        self.clock = now;
        let mut waiting: Vec<DatabaseRequestType> = Vec::new();
        waiting.append(&mut self.pending);
        assert(request_models(waiting@) =~= before.pending);
        assert(request_models(self.pending@) =~= Seq::<RequestModel>::empty());
        while waiting.len() > 0
            invariant
                self@.wf(),
                self@.settle(lsa_models(fresh@), request_models(waiting@)) == before.after(secs),
            decreases waiting.len(),
        {
            let ghost list = request_models(waiting@);
            let ghost sofar = lsa_models(fresh@);
            match waiting.pop() {
                Some(req) => {
                    assert(request_models(waiting@) =~= list.drop_last());
                    assert(list.last() == req@);
                    let (resp, _) = self.apply(req);
                    match resp {
                        DatabaseResponse::Lsa(lsa) => {
                            let ghost model = lsa@;
                            fresh.push(lsa);
                            assert(lsa_models(fresh@) =~= sofar.push(model));
                        },
                        _ => {},
                    }
                },
                None => {},
            }
        }
        self.update_route_table();
        fresh
    }
}

} // verus!
