//! The link-state database: the advertisements a router holds, and the
//! requests it serves on them.

use vstd::prelude::*;
use crate::config::{Config, INIT_SEQ_NUM_LSA, MAX_AGE, MAX_SEQ_NUM_LSA, MIN_LS_ARRIVAL,
    MIN_LS_INTERVAL};
use crate::lsa::{Lsa, LsaHeader, LsaModel, LsaNetwork, LsaRouterLink, NetworkModel, RouterLinkModel,
    RouterModel, LSA_NETWORK, LSA_ROUTER};
use crate::packets::lsa_models;
use crate::route::RouteTable;

verus! {

/// The address and mask of one of the router's interfaces.
#[derive(Debug, Clone, Copy, PartialEq, Eq, Structural)]
pub struct InterfaceAddr {
    pub addr: u32,
    pub mask: u32,
}

/// What selects advertisements in the database.
#[derive(Debug, Clone, Copy, PartialEq, Eq, Structural)]
pub enum LsaKey {
    /// The advertisements with the identity of this header.
    Identity(LsaHeader),
    /// The advertisements with exactly this header.
    Header(LsaHeader),
    /// The advertisements with this link-state id.
    Lsid(u32),
    /// The advertisements with this link-state id and advertising router.
    LsidAdv(u32, u32),
    /// The advertisements with this type byte.
    Type(u8),
    /// The network advertisements with this link-state id.
    Network(u32),
    /// The advertisements that have not reached the maximum age.
    Live,
}

impl LsaKey {
    /// The key selects the advertisement `l`.
    pub open spec fn selects(self, l: LsaModel) -> bool {
        let h = l.header();
        match self {
            LsaKey::Identity(k) => h.same_identity(k),
            LsaKey::Header(k) => h == k,
            LsaKey::Lsid(id) => h.link_state_id == id,
            LsaKey::LsidAdv(id, adv) => h.link_state_id == id && h.advertising_router == adv,
            LsaKey::Type(t) => h.ls_type == t,
            LsaKey::Network(id) => l is Network && h.link_state_id == id,
            LsaKey::Live => h.age < MAX_AGE,
        }
    }

    /// Whether the key selects the advertisement `l`.
    pub fn test(&self, l: &Lsa) -> (hit: bool)
        ensures
            hit == self.selects(l@),
    {
        let h = l.get_hdr();
        match self {
            LsaKey::Identity(k) => h.same_ids(k),
            LsaKey::Header(k) => *h == *k,
            LsaKey::Lsid(id) => h.link_state_id == *id,
            LsaKey::LsidAdv(id, adv) => h.link_state_id == *id && h.advertising_router == *adv,
            LsaKey::Type(t) => h.ls_type == *t,
            LsaKey::Network(id) => match l {
                Lsa::LsaNetwork(_) => h.link_state_id == *id,
                _ => false,
            },
            LsaKey::Live => (h.age as u32) < MAX_AGE,
        }
    }
}

/// The place of the first advertisement of `lsas` that `key` selects.
pub open spec fn position(lsas: Seq<LsaModel>, key: LsaKey) -> Option<int>
    decreases lsas.len(),
{
    if lsas.len() == 0 {
        None
    } else {
        match position(lsas.drop_last(), key) {
            Some(i) => Some(i),
            None => if key.selects(lsas.last()) {
                Some(lsas.len() - 1)
            } else {
                None
            },
        }
    }
}

/// The advertisements of `lsas` that `key` selects, in their order.
pub open spec fn selection(lsas: Seq<LsaModel>, key: LsaKey) -> Seq<LsaModel>
    decreases lsas.len(),
{
    if lsas.len() == 0 {
        Seq::empty()
    } else if key.selects(lsas.last()) {
        selection(lsas.drop_last(), key).push(lsas.last())
    } else {
        selection(lsas.drop_last(), key)
    }
}

/// The advertisements of `lsas` that the routes are computed from: those
/// that have not reached the maximum age.
pub open spec fn contributing(lsas: Seq<LsaModel>) -> Seq<LsaModel> {
    selection(lsas, LsaKey::Live)
}

/// As many copies of `lsa` as `queries` has pairs of link-state id and
/// advertising router that name it.
pub open spec fn answers(lsa: LsaModel, queries: Seq<(u32, u32)>) -> Seq<LsaModel>
    decreases queries.len(),
{
    if queries.len() == 0 {
        Seq::empty()
    } else if LsaKey::LsidAdv(queries.last().0, queries.last().1).selects(lsa) {
        answers(lsa, queries.drop_last()).push(lsa)
    } else {
        answers(lsa, queries.drop_last())
    }
}

/// For each advertisement of `lsas` in turn, its answers to `queries`.
pub open spec fn multi_answers(lsas: Seq<LsaModel>, queries: Seq<(u32, u32)>) -> Seq<LsaModel>
    decreases lsas.len(),
{
    if lsas.len() == 0 {
        Seq::empty()
    } else {
        multi_answers(lsas.drop_last(), queries) + answers(lsas.last(), queries)
    }
}

/// What `position` finds is the first advertisement that the key selects.
pub proof fn lemma_position(lsas: Seq<LsaModel>, key: LsaKey)
    ensures
        match position(lsas, key) {
            Some(i) => 0 <= i < lsas.len() && key.selects(lsas[i]) && forall|j: int|
                0 <= j < i ==> !key.selects(#[trigger] lsas[j]),
            None => forall|j: int|
                0 <= j < lsas.len() ==> !key.selects(#[trigger] lsas[j]),
        },
    decreases lsas.len(),
{
    if lsas.len() > 0 {
        let init = lsas.drop_last();
        lemma_position(init, key);
        match position(init, key) {
            Some(i) => {
                assert forall|j: int| 0 <= j < i implies !key.selects(#[trigger] lsas[j]) by {
                    assert(init[j] == lsas[j]);
                }
                assert(init[i] == lsas[i]);
            },
            None => {
                assert forall|j: int| 0 <= j < lsas.len() - 1 implies !key.selects(#[trigger] lsas[j]) by {
                    assert(init[j] == lsas[j]);
                }
            },
        }
    }
}

/// No two advertisements of `lsas` have the same identity.
pub open spec fn unique_identities(lsas: Seq<LsaModel>) -> bool {
    forall|i: int, j: int|
        0 <= i < lsas.len() && 0 <= j < lsas.len() && i != j ==> !(#[trigger] lsas[i]).header(
        ).same_identity((#[trigger] lsas[j]).header())
}

/// Every advertisement of `lsas` fits the 16-bit length field.
pub open spec fn all_fit(lsas: Seq<LsaModel>) -> bool {
    forall|i: int| 0 <= i < lsas.len() ==> (#[trigger] lsas[i]).encoding().len() <= 0xFFFF
}

/// `lsas` with `lsa` in the place of the advertisement of its identity, or
/// at the end where there is none.
pub open spec fn installed(lsas: Seq<LsaModel>, lsa: LsaModel) -> Seq<LsaModel> {
    match position(lsas, LsaKey::Identity(lsa.header())) {
        Some(i) => lsas.update(i, lsa),
        None => lsas.push(lsa),
    }
}

/// Installing an advertisement keeps identities unique, and the database
/// then holds that advertisement, and no other, under its identity.
#[verifier::rlimit(40)]
pub proof fn lemma_installed(lsas: Seq<LsaModel>, lsa: LsaModel)
    requires
        unique_identities(lsas),
    ensures
        unique_identities(installed(lsas, lsa)),
        position(installed(lsas, lsa), LsaKey::Identity(lsa.header())) is Some,
        installed(lsas, lsa)[position(
            installed(lsas, lsa),
            LsaKey::Identity(lsa.header()),
        )->0] == lsa,
        forall|k: int|
            0 <= k < installed(lsas, lsa).len() && (#[trigger] installed(lsas, lsa)[k]).header(
            ).same_identity(lsa.header()) ==> installed(lsas, lsa)[k] == lsa,
        all_fit(lsas) && lsa.encoding().len() <= 0xFFFF ==> all_fit(installed(lsas, lsa)),
{
    let key = LsaKey::Identity(lsa.header());
    let after = installed(lsas, lsa);
    lemma_position(lsas, key);
    lemma_position(after, key);
    match position(lsas, key) {
        Some(i) => {
            assert(after[i] == lsa);
            assert forall|a: int, b: int|
                0 <= a < after.len() && 0 <= b < after.len() && a != b implies !(
            #[trigger] after[a]).header().same_identity((#[trigger] after[b]).header()) by {
                if a == i {
                    assert(!lsas[i].header().same_identity(lsas[b].header()));
                } else if b == i {
                    assert(!lsas[a].header().same_identity(lsas[i].header()));
                } else {
                    assert(!lsas[a].header().same_identity(lsas[b].header()));
                }
            }
            assert forall|k: int|
                0 <= k < after.len() && (#[trigger] after[k]).header().same_identity(
                    lsa.header(),
                ) implies after[k] == lsa by {
                if k != i {
                    assert(!after[k].header().same_identity(after[i].header()));
                }
            }
        },
        None => {
            assert(after[lsas.len() as int] == lsa);
            assert forall|a: int, b: int|
                0 <= a < after.len() && 0 <= b < after.len() && a != b implies !(
            #[trigger] after[a]).header().same_identity((#[trigger] after[b]).header()) by {
                if a < lsas.len() && b < lsas.len() {
                    assert(!lsas[a].header().same_identity(lsas[b].header()));
                } else if a < lsas.len() {
                    assert(!key.selects(lsas[a]));
                } else {
                    assert(!key.selects(lsas[b]));
                }
            }
            assert forall|k: int|
                0 <= k < after.len() && (#[trigger] after[k]).header().same_identity(
                    lsa.header(),
                ) implies after[k] == lsa by {
                if k < lsas.len() {
                    assert(!key.selects(lsas[k]));
                }
            }
        },
    }
    match position(after, key) {
        Some(p) => {
            assert(after[p].header().same_identity(lsa.header()));
        },
        None => {
            if position(lsas, key) is Some {
                assert(key.selects(after[position(lsas, key)->0]));
            } else {
                assert(key.selects(after[lsas.len() as int]));
            }
        },
    }
}

/// The sequence number that follows `cur`: one more, or the first sequence
/// number after the last one.
pub open spec fn next_seq(cur: i32) -> i32 {
    if cur == MAX_SEQ_NUM_LSA {
        INIT_SEQ_NUM_LSA
    } else {
        (cur + 1) as i32
    }
}

/// The header of an advertisement that this router originates, before its
/// length and checksum are set.
pub open spec fn origin_header(ls_type: u8, link_state_id: u32, router_id: u32, seq: i32)
    -> LsaHeader {
    LsaHeader {
        age: 0,
        options: 0x02,
        ls_type,
        link_state_id,
        advertising_router: router_id,
        sequence_number: seq,
        checksum: 0,
        length: 0,
    }
}

/// The links of a table of links by interface address, in the table's order.
pub open spec fn link_values(table: Seq<(u32, RouterLinkModel)>) -> Seq<RouterLinkModel> {
    table.map_values(|e: (u32, RouterLinkModel)| e.1)
}

/// The place of the entry for interface `addr` in a table of links.
pub open spec fn link_position(table: Seq<(u32, RouterLinkModel)>, addr: u32) -> Option<int>
    decreases table.len(),
{
    if table.len() == 0 {
        None
    } else {
        match link_position(table.drop_last(), addr) {
            Some(i) => Some(i),
            None => if table.last().0 == addr {
                Some(table.len() - 1)
            } else {
                None
            },
        }
    }
}

/// The table with `link` as the entry for interface `addr`: in the place of
/// the earlier entry, or at the end.
pub open spec fn link_put(table: Seq<(u32, RouterLinkModel)>, addr: u32, link: RouterLinkModel)
    -> Seq<(u32, RouterLinkModel)> {
    match link_position(table, addr) {
        Some(i) => table.update(i, (addr, link)),
        None => table.push((addr, link)),
    }
}

/// The router advertisement of router `router_id` with the given links and
/// sequence number, its length and checksum set.
pub open spec fn router_lsa(router_id: u32, seq: i32, links: Seq<RouterLinkModel>) -> LsaModel {
    LsaModel::Router(
        RouterModel {
            header: origin_header(LSA_ROUTER, router_id, router_id, seq),
            flags: 0,
            num_links: (links.len() % 0x1_0000) as u16,
            links,
        },
    ).sealed()
}

/// The network advertisement of router `router_id` for the network of its
/// interface `int_addr`: this router and then `neighbors` are attached.
pub open spec fn network_lsa(
    router_id: u32,
    seq: i32,
    int_addr: u32,
    int_mask: u32,
    neighbors: Seq<u32>,
) -> LsaModel {
    LsaModel::Network(
        NetworkModel {
            header: origin_header(LSA_NETWORK, int_addr, router_id, seq),
            network_mask: int_mask,
            attached_routers: seq![router_id] + neighbors,
        },
    ).sealed()
}

/// The database: the advertisements, for each of them the time it was
/// installed at, the link that this router advertises for each of its
/// interfaces, the configuration, the sequence number last used, the
/// seconds that have passed over the database, the originations that wait
/// for their time, the routes, and the addresses of the router's interfaces.
#[derive(Debug)]
pub struct LinkStateDatabase {
    pub each_int_link: Vec<(u32, LsaRouterLink)>,
    pub lsa_list: Vec<Lsa>,
    pub installed_at: Vec<u64>,
    pub global_config: Config,
    pub cur_lsa_seq_num: i32,
    pub clock: u64,
    pub pending: Vec<DatabaseRequestType>,
    pub route_table: RouteTable,
    pub int_list: Vec<InterfaceAddr>,
}

/// What the database holds besides the routes, as plain values.
pub struct DbModel {
    pub links: Seq<(u32, RouterLinkModel)>,
    pub lsas: Seq<LsaModel>,
    pub stamps: Seq<u64>,
    pub config: Config,
    pub seq: i32,
    pub clock: u64,
    pub pending: Seq<RequestModel>,
    pub ints: Seq<InterfaceAddr>,
}

impl DbModel {
    /// No identity occurs twice, every advertisement fits the 16-bit length
    /// field, and every advertisement has the time it was installed at.
    pub open spec fn wf(self) -> bool {
        unique_identities(self.lsas) && all_fit(self.lsas) && self.stamps.len()
            == self.lsas.len()
    }

    /// The seconds since the advertisement with the identity of `h` was
    /// installed, if the database holds one.
    pub open spec fn held_for(self, h: LsaHeader) -> Option<int> {
        match position(self.lsas, LsaKey::Identity(h)) {
            Some(i) => Some(self.clock - self.stamps[i]),
            None => None,
        }
    }

    /// An advertisement with the identity of `h` was installed less than
    /// `MIN_LS_ARRIVAL` seconds ago.
    pub open spec fn recent(self, h: LsaHeader) -> bool {
        self.held_for(h) matches Some(secs) && secs < MIN_LS_ARRIVAL
    }

    /// An advertisement with the identity of `h` was installed less than
    /// `MIN_LS_INTERVAL` seconds ago, so that this router does not originate
    /// it anew yet.
    pub open spec fn too_soon(self, h: LsaHeader) -> bool {
        self.held_for(h) matches Some(secs) && secs < MIN_LS_INTERVAL
    }

    /// The database with `lsa` installed now: in the place of the
    /// advertisement with its identity, or at the end.
    pub open spec fn with_lsa(self, lsa: LsaModel) -> DbModel {
        DbModel {
            lsas: installed(self.lsas, lsa),
            stamps: match position(self.lsas, LsaKey::Identity(lsa.header())) {
                Some(i) => self.stamps.update(i, self.clock),
                None => self.stamps.push(self.clock),
            },
            ..self
        }
    }

    /// The database with the origination `req` put off: it takes the place
    /// of any origination of the same advertisement that waits already.
    pub open spec fn deferring(self, req: RequestModel) -> DbModel {
        DbModel { pending: without_origin(self.pending, req).push(req), ..self }
    }

    /// The database without the advertisement at the place `i`.
    pub open spec fn without(self, i: int) -> DbModel {
        DbModel { lsas: self.lsas.remove(i), stamps: self.stamps.remove(i), ..self }
    }

    /// The place of the advertisement that stands in the way of originating
    /// one with the header `h`: it has the identity of `h`, has not reached
    /// the maximum age, and its sequence number is not below that of `h`.
    /// Sequence numbers only grow, so it has to be flushed first.
    pub open spec fn blocking(self, h: LsaHeader) -> Option<int> {
        match position(self.lsas, LsaKey::Identity(h)) {
            Some(i) => if stands_before(self.lsas[i].header(), h.sequence_number) {
                Some(i)
            } else {
                None
            },
            None => None,
        }
    }
}

/// An advertisement with the header `held` has to be flushed before one of
/// its identity is originated with the sequence number `seq`: it has not
/// reached the maximum age, and its sequence number is not below `seq`.
pub open spec fn stands_before(held: LsaHeader, seq: i32) -> bool {
    held.age < MAX_AGE && held.sequence_number >= seq
}

/// The advertisement `l` as it is flushed: at the maximum age.
pub open spec fn flushed(l: LsaModel) -> LsaModel {
    l.with_header(LsaHeader { age: MAX_AGE as u16, ..l.header() })
}

/// The two requests originate the same advertisement: the router
/// advertisement, or the network advertisement of one interface.
pub open spec fn same_origin(a: RequestModel, b: RequestModel) -> bool {
    match a {
        RequestModel::GenRouterLsa(_, _) => b is GenRouterLsa,
        RequestModel::GenNetworkLsa(addr, _, _) => b is GenNetworkLsa && b->GenNetworkLsa_0
            == addr,
        _ => false,
    }
}

/// `pending` without the originations of the advertisement that `req`
/// originates.
pub open spec fn without_origin(pending: Seq<RequestModel>, req: RequestModel) -> Seq<
    RequestModel,
>
    decreases pending.len(),
{
    if pending.len() == 0 {
        Seq::empty()
    } else if same_origin(pending.first(), req) {
        without_origin(pending.drop_first(), req)
    } else {
        seq![pending.first()] + without_origin(pending.drop_first(), req)
    }
}

/// The plain values of a list of requests.
pub open spec fn request_models(list: Seq<DatabaseRequestType>) -> Seq<RequestModel> {
    list.map_values(|r: DatabaseRequestType| r@)
}

/// The plain values of a table of links.
pub open spec fn link_table_model(table: Seq<(u32, LsaRouterLink)>) -> Seq<(u32, RouterLinkModel)> {
    table.map_values(|e: (u32, LsaRouterLink)| (e.0, e.1@))
}

impl View for LinkStateDatabase {
    type V = DbModel;

    open spec fn view(&self) -> DbModel {
        DbModel {
            links: link_table_model(self.each_int_link@),
            lsas: lsa_models(self.lsa_list@),
            stamps: self.installed_at@,
            config: self.global_config,
            seq: self.cur_lsa_seq_num,
            clock: self.clock,
            pending: request_models(self.pending@),
            ints: self.int_list@,
        }
    }
}

/// A request to the database.
#[derive(Debug)]
pub enum DatabaseRequestType {
    QueryConfig,
    ChangeConfig(Config),
    QueryLsaByHdr(LsaHeader),
    /// Whether an advertisement with the identity of the header was
    /// installed less than `MIN_LS_ARRIVAL` seconds ago.
    QueryRecent(LsaHeader),
    QueryLsaByLSID(u32),
    QueryLsaByLSIDAdvRouter(u32, u32),
    QueryMultiLsa(Vec<(u32, u32)>),
    RemoveLsa(LsaHeader),
    AddOrUpdateLsa(Lsa),
    QueryAllLsa,
    QueryAllLsaByType(u8),
    GenRouterLsa(LsaRouterLink, u32),
    GenNetworkLsa(u32, u32, Vec<u32>),
}

/// A request to the database, as plain values.
pub enum RequestModel {
    QueryConfig,
    ChangeConfig(Config),
    QueryLsaByHdr(LsaHeader),
    QueryRecent(LsaHeader),
    QueryLsaByLSID(u32),
    QueryLsaByLSIDAdvRouter(u32, u32),
    QueryMultiLsa(Seq<(u32, u32)>),
    RemoveLsa(LsaHeader),
    AddOrUpdateLsa(LsaModel),
    QueryAllLsa,
    QueryAllLsaByType(u8),
    GenRouterLsa(RouterLinkModel, u32),
    GenNetworkLsa(u32, u32, Seq<u32>),
}

impl View for DatabaseRequestType {
    type V = RequestModel;

    open spec fn view(&self) -> RequestModel {
        match self {
            DatabaseRequestType::QueryConfig => RequestModel::QueryConfig,
            DatabaseRequestType::ChangeConfig(c) => RequestModel::ChangeConfig(*c),
            DatabaseRequestType::QueryLsaByHdr(h) => RequestModel::QueryLsaByHdr(*h),
            DatabaseRequestType::QueryRecent(h) => RequestModel::QueryRecent(*h),
            DatabaseRequestType::QueryLsaByLSID(id) => RequestModel::QueryLsaByLSID(*id),
            DatabaseRequestType::QueryLsaByLSIDAdvRouter(id, adv) => {
                RequestModel::QueryLsaByLSIDAdvRouter(*id, *adv)
            },
            DatabaseRequestType::QueryMultiLsa(q) => RequestModel::QueryMultiLsa(q@),
            DatabaseRequestType::RemoveLsa(h) => RequestModel::RemoveLsa(*h),
            DatabaseRequestType::AddOrUpdateLsa(l) => RequestModel::AddOrUpdateLsa(l@),
            DatabaseRequestType::QueryAllLsa => RequestModel::QueryAllLsa,
            DatabaseRequestType::QueryAllLsaByType(t) => RequestModel::QueryAllLsaByType(*t),
            DatabaseRequestType::GenRouterLsa(link, addr) => RequestModel::GenRouterLsa(
                link@,
                *addr,
            ),
            DatabaseRequestType::GenNetworkLsa(addr, mask, nbrs) => RequestModel::GenNetworkLsa(
                *addr,
                *mask,
                nbrs@,
            ),
        }
    }
}

/// The database's answer to a request.
#[derive(Debug)]
pub enum DatabaseResponse {
    UpdateDone,
    NotFound,
    /// The advertisement would not fit the 16-bit length field.
    Refused,
    /// The answer to `QueryRecent`.
    Recent(bool),
    Config(Config),
    Lsa(Lsa),
    LsaList(Vec<Lsa>),
}

/// The database's answer to a request, as plain values.
pub enum ResponseModel {
    UpdateDone,
    NotFound,
    Refused,
    Recent(bool),
    Config(Config),
    Lsa(LsaModel),
    LsaList(Seq<LsaModel>),
}

impl View for DatabaseResponse {
    type V = ResponseModel;

    open spec fn view(&self) -> ResponseModel {
        match self {
            DatabaseResponse::UpdateDone => ResponseModel::UpdateDone,
            DatabaseResponse::NotFound => ResponseModel::NotFound,
            DatabaseResponse::Refused => ResponseModel::Refused,
            DatabaseResponse::Recent(r) => ResponseModel::Recent(*r),
            DatabaseResponse::Config(c) => ResponseModel::Config(*c),
            DatabaseResponse::Lsa(l) => ResponseModel::Lsa(l@),
            DatabaseResponse::LsaList(l) => ResponseModel::LsaList(lsa_models(l@)),
        }
    }
}

/// The answer for a lookup: the advertisement found, or `NotFound`.
pub open spec fn found(lsas: Seq<LsaModel>, key: LsaKey) -> ResponseModel {
    match position(lsas, key) {
        Some(i) => ResponseModel::Lsa(lsas[i]),
        None => ResponseModel::NotFound,
    }
}

impl DbModel {
    /// The database after an advertisement that this router originates has
    /// been installed with the next sequence number.
    pub open spec fn originated(self, lsa: LsaModel) -> DbModel {
        DbModel { seq: next_seq(self.seq), ..self.with_lsa(lsa) }
    }

    /// The database after the removal of the advertisement with exactly the
    /// header `h`, and the answer.
    pub open spec fn removing(self, h: LsaHeader) -> (DbModel, ResponseModel) {
        match position(self.lsas, LsaKey::Header(h)) {
            Some(i) => (self.without(i), ResponseModel::UpdateDone),
            None => (self, ResponseModel::NotFound),
        }
    }

    /// The database after the installing of `l`, and the answer. An
    /// advertisement that does not fit the 16-bit length field is refused.
    pub open spec fn adding(self, l: LsaModel) -> (DbModel, ResponseModel) {
        if l.encoding().len() <= 0xFFFF {
            (self.with_lsa(l), ResponseModel::UpdateDone)
        } else {
            (self, ResponseModel::Refused)
        }
    }

    /// The database after the request to originate the router advertisement
    /// with `link` as the link of the interface `addr`, and the answer.
    ///
    /// The advertisement holds the links of all interfaces and carries the
    /// sequence number after the one last used. If it would not fit the
    /// 16-bit length field, the request is refused and changes nothing. If
    /// this router has originated its router advertisement less than
    /// `MIN_LS_INTERVAL` seconds ago, the link is noted and the origination
    /// put off until the database has aged enough. If the advertisement
    /// that the database holds stands in the way, because the sequence
    /// numbers have started over, that one is flushed: it leaves the
    /// database and is answered at the maximum age, to be flooded, and the
    /// origination is put off.
    pub open spec fn gen_router(self, link: RouterLinkModel, addr: u32) -> (
        DbModel,
        ResponseModel,
    ) {
        let links = link_put(self.links, addr, link);
        let lsa = router_lsa(self.config.router_id, next_seq(self.seq), link_values(links));
        let noted = DbModel { links, ..self };
        if lsa.encoding().len() > 0xFFFF {
            (self, ResponseModel::Refused)
        } else if self.too_soon(lsa.header()) {
            (noted.deferring(RequestModel::GenRouterLsa(link, addr)), ResponseModel::UpdateDone)
        } else {
            match self.blocking(lsa.header()) {
                Some(i) => (
                    noted.without(i).deferring(RequestModel::GenRouterLsa(link, addr)),
                    ResponseModel::Lsa(flushed(self.lsas[i])),
                ),
                None => (noted.originated(lsa), ResponseModel::Lsa(lsa)),
            }
        }
    }

    /// The database after the request to originate the network
    /// advertisement of the interface `addr`, and the answer. The request is
    /// refused or put off, or the advertisement that the database holds is
    /// flushed first, as for the router advertisement.
    pub open spec fn gen_network(self, addr: u32, mask: u32, nbrs: Seq<u32>) -> (
        DbModel,
        ResponseModel,
    ) {
        let lsa = network_lsa(self.config.router_id, next_seq(self.seq), addr, mask, nbrs);
        if lsa.encoding().len() > 0xFFFF {
            (self, ResponseModel::Refused)
        } else if self.too_soon(lsa.header()) {
            (
                self.deferring(RequestModel::GenNetworkLsa(addr, mask, nbrs)),
                ResponseModel::UpdateDone,
            )
        } else {
            match self.blocking(lsa.header()) {
                Some(i) => (
                    self.without(i).deferring(RequestModel::GenNetworkLsa(addr, mask, nbrs)),
                    ResponseModel::Lsa(flushed(self.lsas[i])),
                ),
                None => (self.originated(lsa), ResponseModel::Lsa(lsa)),
            }
        }
    }

    /// The database after `req` and the answer to it.
    pub open spec fn serve(self, req: RequestModel) -> (DbModel, ResponseModel) {
        match req {
            RequestModel::QueryConfig => (self, ResponseModel::Config(self.config)),
            RequestModel::ChangeConfig(c) => (
                DbModel { config: c, ..self },
                ResponseModel::UpdateDone,
            ),
            RequestModel::QueryLsaByHdr(h) => (self, found(self.lsas, LsaKey::Identity(h))),
            RequestModel::QueryRecent(h) => (self, ResponseModel::Recent(self.recent(h))),
            RequestModel::QueryLsaByLSID(id) => (self, found(self.lsas, LsaKey::Lsid(id))),
            RequestModel::QueryLsaByLSIDAdvRouter(id, adv) => (
                self,
                found(self.lsas, LsaKey::LsidAdv(id, adv)),
            ),
            RequestModel::QueryMultiLsa(q) => (
                self,
                ResponseModel::LsaList(multi_answers(self.lsas, q)),
            ),
            RequestModel::RemoveLsa(h) => self.removing(h),
            RequestModel::AddOrUpdateLsa(l) => self.adding(l),
            RequestModel::QueryAllLsa => (self, ResponseModel::LsaList(self.lsas)),
            RequestModel::QueryAllLsaByType(t) => (
                self,
                ResponseModel::LsaList(selection(self.lsas, LsaKey::Type(t))),
            ),
            RequestModel::GenRouterLsa(link, addr) => self.gen_router(link, addr),
            RequestModel::GenNetworkLsa(addr, mask, nbrs) => self.gen_network(addr, mask, nbrs),
        }
    }
}

/// The place of the first advertisement of `list` that `key` selects.
pub fn find_in(list: &Vec<Lsa>, key: &LsaKey) -> (at: Option<usize>)
    ensures
        match at {
            Some(i) => position(lsa_models(list@), *key) == Some(i as int) && i < list@.len(),
            None => position(lsa_models(list@), *key) is None,
        },
{
    let ghost lsas = lsa_models(list@);
    let mut i: usize = 0;
    assert(lsas.take(0) =~= Seq::<LsaModel>::empty());
    while i < list.len()
        invariant
            i <= list.len(),
            lsas == lsa_models(list@),
            position(lsas.take(i as int), *key) is None,
        decreases list.len() - i,
    {
        let ghost next = lsas.take(i + 1);
        proof {
            assert(next.drop_last() =~= lsas.take(i as int));
            assert(next.last() == list[i as int]@);
        }
        if key.test(&list[i]) {
            proof {
                lemma_position(next, *key);
                lemma_position(lsas, *key);
                assert(next[i as int] == lsas[i as int]);
                match position(lsas, *key) {
                    Some(p) => {
                        if p < i {
                            assert(next[p] == lsas[p]);
                        }
                    },
                    None => {},
                }
            }
            return Some(i);
        }
        i += 1;
    }
    assert(lsas.take(i as int) =~= lsas);
    None
}

/// The first network advertisement of `list` whose link-state id is
/// `int_addr`.
pub fn network_in(list: &Vec<Lsa>, int_addr: u32) -> (found: Option<&LsaNetwork>)
    ensures
        match found {
            Some(n) => network_for(lsa_models(list@), int_addr) == Some(n@),
            None => network_for(lsa_models(list@), int_addr) is None,
        },
{
    let key = LsaKey::Network(int_addr);
    proof {
        lemma_position(lsa_models(list@), key);
    }
    match find_in(list, &key) {
        Some(i) => {
            assert(lsa_models(list@)[i as int] == list[i as int]@);
            match &list[i] {
                Lsa::LsaNetwork(n) => Some(n),
                _ => None,
            }
        },
        None => None,
    }
}

/// A copy of a list of advertisements.
pub fn copy_lsas(list: &Vec<Lsa>) -> (copy: Vec<Lsa>)
    ensures
        lsa_models(copy@) == lsa_models(list@),
{
    let copy = list.clone();
    assert(lsa_models(copy@) =~= lsa_models(list@));
    copy
}

/// The sequence number that follows `cur`.
pub fn following_seq(cur: i32) -> (next: i32)
    ensures
        next == next_seq(cur),
{
    if cur == MAX_SEQ_NUM_LSA {
        INIT_SEQ_NUM_LSA
    } else {
        cur + 1
    }
}

impl LinkStateDatabase {
    /// An empty database for a router with the given configuration and
    /// interfaces.
    pub fn from(config: Config, int_list: Vec<InterfaceAddr>) -> (db: LinkStateDatabase)
        ensures
            db@ == (DbModel {
                links: Seq::empty(),
                lsas: Seq::empty(),
                stamps: Seq::empty(),
                config,
                seq: INIT_SEQ_NUM_LSA,
                clock: 0,
                pending: Seq::empty(),
                ints: int_list@,
            }),
            db@.wf(),
    {
        let db = LinkStateDatabase {
            each_int_link: Vec::new(),
            lsa_list: Vec::new(),
            installed_at: Vec::new(),
            global_config: config,
            cur_lsa_seq_num: INIT_SEQ_NUM_LSA,
            clock: 0,
            pending: Vec::new(),
            route_table: RouteTable::new(),
            int_list,
        };
        assert(db@.links =~= Seq::empty());
        assert(db@.lsas =~= Seq::empty());
        assert(db@.stamps =~= Seq::empty());
        assert(db@.pending =~= Seq::empty());
        db
    }

    /// The place of the first advertisement that `key` selects.
    pub fn find(&self, key: &LsaKey) -> (at: Option<usize>)
        ensures
            match at {
                Some(i) => position(self@.lsas, *key) == Some(i as int) && i < self.lsa_list@.len(),
                None => position(self@.lsas, *key) is None,
            },
    {
        find_in(&self.lsa_list, key)
    }

    /// The first network advertisement whose link-state id is `int_addr`.
    pub fn get_network_lsa(&self, int_addr: u32) -> (found: Option<LsaNetwork>)
        ensures
            match found {
                Some(n) => network_for(self@.lsas, int_addr) == Some(n@),
                None => network_for(self@.lsas, int_addr) is None,
            },
    {
        match network_in(&self.lsa_list, int_addr) {
            Some(n) => Some(n.clone()),
            None => None,
        }
    }

    /// The answer for a lookup by `key`.
    pub fn lookup(&self, key: &LsaKey) -> (resp: DatabaseResponse)
        ensures
            resp@ == found(self@.lsas, *key),
    {
        match self.find(key) {
            Some(i) => {
                assert(self@.lsas[i as int] == self.lsa_list[i as int]@);
                DatabaseResponse::Lsa(self.lsa_list[i].clone())
            },
            None => DatabaseResponse::NotFound,
        }
    }

    /// The advertisements that `key` selects.
    pub fn select(&self, key: &LsaKey) -> (list: Vec<Lsa>)
        ensures
            lsa_models(list@) == selection(self@.lsas, *key),
    {
        let ghost lsas = self@.lsas;
        let mut list: Vec<Lsa> = Vec::new();
        let mut i: usize = 0;
        assert(lsas.take(0) =~= Seq::<LsaModel>::empty());
        assert(lsa_models(list@) =~= Seq::<LsaModel>::empty());
        while i < self.lsa_list.len()
            invariant
                i <= self.lsa_list.len(),
                lsas == self@.lsas,
                lsas.len() == self.lsa_list@.len(),
                lsa_models(list@) == selection(lsas.take(i as int), *key),
            decreases self.lsa_list.len() - i,
        {
            let ghost next = lsas.take(i + 1);
            let ghost before = lsa_models(list@);
            proof {
                assert(next.drop_last() =~= lsas.take(i as int));
                assert(next.last() == self.lsa_list[i as int]@);
            }
            if key.test(&self.lsa_list[i]) {
                list.push(self.lsa_list[i].clone());
                assert(lsa_models(list@) =~= before.push(next.last()));
            }
            i += 1;
        }
        assert(lsas.take(i as int) =~= lsas);
        list
    }

    /// For each advertisement in turn, one copy for each pair of `queries`
    /// that names its link-state id and advertising router.
    pub fn query_multi(&self, queries: &Vec<(u32, u32)>) -> (list: Vec<Lsa>)
        ensures
            lsa_models(list@) == multi_answers(self@.lsas, queries@),
    {
        let ghost lsas = self@.lsas;
        let mut list: Vec<Lsa> = Vec::new();
        let mut i: usize = 0;
        assert(lsas.take(0) =~= Seq::<LsaModel>::empty());
        assert(lsa_models(list@) =~= Seq::<LsaModel>::empty());
        while i < self.lsa_list.len()
            invariant
                i <= self.lsa_list.len(),
                lsas == self@.lsas,
                lsas.len() == self.lsa_list@.len(),
                lsa_models(list@) == multi_answers(lsas.take(i as int), queries@),
            decreases self.lsa_list.len() - i,
        {
            let ghost next = lsas.take(i + 1);
            let ghost done = lsa_models(list@);
            let lsa = &self.lsa_list[i];
            proof {
                assert(next.drop_last() =~= lsas.take(i as int));
                assert(next.last() == lsa@);
                assert(queries@.take(0) =~= Seq::<(u32, u32)>::empty());
                assert(lsa_models(list@) =~= done + answers(lsa@, queries@.take(0)));
            }
            let mut q: usize = 0;
            while q < queries.len()
                invariant
                    q <= queries.len(),
                    lsa_models(list@) == done + answers(lsa@, queries@.take(q as int)),
                decreases queries.len() - q,
            {
                let ghost sofar = lsa_models(list@);
                let ghost qnext = queries@.take(q + 1);
                proof {
                    assert(qnext.drop_last() =~= queries@.take(q as int));
                    assert(qnext.last() == queries@[q as int]);
                }
                let key = LsaKey::LsidAdv(queries[q].0, queries[q].1);
                if key.test(lsa) {
                    list.push(lsa.clone());
                    assert(lsa_models(list@) =~= sofar.push(lsa@));
                    assert(answers(lsa@, qnext) == answers(lsa@, queries@.take(q as int)).push(
                        lsa@,
                    ));
                    assert(lsa_models(list@) =~= done + answers(lsa@, qnext));
                }
                q += 1;
            }
            assert(queries@.take(q as int) =~= queries@);
            i += 1;
        }
        assert(lsas.take(i as int) =~= lsas);
        list
    }

    /// Puts `lsa` in the place of the advertisement of its identity, or at
    /// the end where there is none, and notes the time.
    pub fn install(&mut self, lsa: Lsa)
        requires
            old(self)@.stamps.len() == old(self)@.lsas.len(),
        ensures
            final(self)@ == old(self)@.with_lsa(lsa@),
            final(self).route_table == old(self).route_table,
    {
        let key = LsaKey::Identity(*lsa.get_hdr());
        let ghost before = self@.lsas;
        match self.find(&key) {
            Some(i) => {
                let ghost model = lsa@;
                self.lsa_list[i] = lsa;
                self.installed_at[i] = self.clock;
                assert(lsa_models(self.lsa_list@) =~= before.update(i as int, model));
            },
            None => {
                let ghost model = lsa@;
                self.lsa_list.push(lsa);
                self.installed_at.push(self.clock);
                assert(lsa_models(self.lsa_list@) =~= before.push(model));
            },
        }
    }

    /// The seconds since the advertisement with the identity of `h` was
    /// installed, if the database holds one, tested against `limit`:
    /// whether they are fewer.
    pub fn held_less_than(&self, h: &LsaHeader, limit: u32) -> (less: bool)
        requires
            self@.stamps.len() == self@.lsas.len(),
        ensures
            less == (self@.held_for(*h) matches Some(secs) && secs < limit),
    {
        match self.find(&LsaKey::Identity(*h)) {
            Some(i) => {
                let stamp = self.installed_at[i];
                if stamp > self.clock {
                    true
                } else {
                    self.clock - stamp < limit as u64
                }
            },
            None => false,
        }
    }

    /// The place of the advertisement that has to be flushed before one
    /// with the header `h` is originated.
    pub fn blocked_at(&self, h: &LsaHeader) -> (at: Option<usize>)
        ensures
            match at {
                Some(i) => self@.blocking(*h) == Some(i as int) && i < self.lsa_list@.len(),
                None => self@.blocking(*h) is None,
            },
    {
        match self.find(&LsaKey::Identity(*h)) {
            Some(i) => {
                let held = self.lsa_list[i].get_hdr();
                if (held.age as u32) < MAX_AGE && held.sequence_number >= h.sequence_number {
                    Some(i)
                } else {
                    None
                }
            },
            None => None,
        }
    }

    /// Takes the advertisement at the place `i` out of the database and
    /// gives it as it is flushed, at the maximum age.
    pub fn take_out(&mut self, i: usize) -> (out: Lsa)
        requires
            old(self)@.wf(),
            i < old(self)@.lsas.len(),
        ensures
            final(self)@ == old(self)@.without(i as int),
            out@ == flushed(old(self)@.lsas[i as int]),
            final(self)@.wf(),
            final(self).route_table == old(self).route_table,
    {
        let ghost lsas = self@.lsas;
        let mut out = self.lsa_list.remove(i);
        self.installed_at.remove(i);
        let hdr = *out.get_hdr();
        out.set_hdr(
            LsaHeader {
                age: MAX_AGE as u16,
                options: hdr.options,
                ls_type: hdr.ls_type,
                link_state_id: hdr.link_state_id,
                advertising_router: hdr.advertising_router,
                sequence_number: hdr.sequence_number,
                checksum: hdr.checksum,
                length: hdr.length,
            },
        );
        proof {
            assert(lsa_models(self.lsa_list@) =~= lsas.remove(i as int));
            lemma_without(old(self)@, i as int);
        }
        out
    }
}

/// A database without one of its advertisements is still well-formed.
pub proof fn lemma_without(db: DbModel, i: int)
    requires
        db.wf(),
        0 <= i < db.lsas.len(),
    ensures
        db.without(i).wf(),
{
    let lsas = db.lsas;
    let after = lsas.remove(i);
    assert forall|a: int, b: int|
        0 <= a < after.len() && 0 <= b < after.len() && a != b implies !(
    #[trigger] after[a]).header().same_identity((#[trigger] after[b]).header()) by {
        let a0 = if a < i {
            a
        } else {
            a + 1
        };
        let b0 = if b < i {
            b
        } else {
            b + 1
        };
        assert(!lsas[a0].header().same_identity(lsas[b0].header()));
    }
    assert forall|a: int| 0 <= a < after.len() implies (#[trigger] after[a]).encoding().len()
        <= 0xFFFF by {
        let a0 = if a < i {
            a
        } else {
            a + 1
        };
        assert(lsas[a0].encoding().len() <= 0xFFFF);
    }
}

/// The first network advertisement of `lsas` whose link-state id is
/// `int_addr`.
pub open spec fn network_for(lsas: Seq<LsaModel>, int_addr: u32) -> Option<NetworkModel> {
    match position(lsas, LsaKey::Network(int_addr)) {
        Some(i) => Some(lsas[i]->Network_0),
        None => None,
    }
}

} // verus!
