//! From the database to routes: the graph of routers and networks, the
//! shortest paths on it, and the route to each destination.

use vstd::prelude::*;
use crate::database::{contributing, network_for, network_in, InterfaceAddr, LinkStateDatabase,
    LsaKey};
use crate::lsa::{Lsa, LsaModel, LsaNetwork, LsaRouter, LsaRouterLink, LsaSum, NetworkModel,
    RouterLinkModel, RouterModel, LINK_P2P, LINK_STUB, LINK_TRANSIT};
use crate::packets::lsa_models;
use crate::route::{find_node, index_of, shortest, shortest_paths, unique_ids, with_node, Edge, Node,
    RouteEntry, RouteTable, UNREACHED};

verus! {

/// The graph: its nodes with their distances, for each node the id of the
/// node before it, and the edges with their sources.
pub struct GraphModel {
    pub nodes: Seq<Node>,
    pub prevs: Seq<u32>,
    pub edges: Seq<(u32, Edge)>,
}

impl GraphModel {
    /// The graph without nodes and edges.
    pub open spec fn empty() -> GraphModel {
        GraphModel { nodes: Seq::empty(), prevs: Seq::empty(), edges: Seq::empty() }
    }

    /// No two nodes have the same id, and every node has its entry in
    /// `prevs`.
    pub open spec fn wf(self) -> bool {
        unique_ids(self.nodes) && self.prevs.len() == self.nodes.len()
    }

    /// The graph with `node` in the place of the node with its id, or as a
    /// new node, and `prev` as the node before it.
    pub open spec fn put(self, node: Node, prev: u32) -> GraphModel {
        GraphModel {
            nodes: with_node(self.nodes, node),
            prevs: match index_of(self.nodes, node.id) {
                Some(i) => self.prevs.update(i, prev),
                None => self.prevs.push(prev),
            },
            edges: self.edges,
        }
    }

    /// The graph with one more edge.
    pub open spec fn link(self, src: u32, dst: u32, dis: u32) -> GraphModel {
        GraphModel { edges: self.edges.push((src, Edge { dst, dis })), ..self }
    }

    /// The graph with an edge of weight `dis` from `src` to each of `dsts`
    /// but `src` itself.
    pub open spec fn fan_out(self, src: u32, dsts: Seq<u32>, dis: u32) -> GraphModel
        decreases dsts.len(),
    {
        if dsts.len() == 0 {
            self
        } else if dsts.last() == src {
            self.fan_out(src, dsts.drop_last(), dis)
        } else {
            self.fan_out(src, dsts.drop_last(), dis).link(src, dsts.last(), dis)
        }
    }

    /// The graph with an edge of weight 0 from each of `srcs` to `dst`.
    pub open spec fn fan_in(self, srcs: Seq<u32>, dst: u32) -> GraphModel
        decreases srcs.len(),
    {
        if srcs.len() == 0 {
            self
        } else {
            self.fan_in(srcs.drop_last(), dst).link(srcs.last(), dst, 0)
        }
    }

    /// The graph with what one link of router `router` adds. A
    /// point-to-point link is an edge to the neighbor. A transit link is an
    /// edge to every other router attached to the network, as the network's
    /// advertisement in `lsas` lists them; without that advertisement it
    /// adds nothing. A stub link is a node for the stub network and an edge
    /// to it. Any other link adds nothing.
    pub open spec fn with_link(self, lsas: Seq<LsaModel>, router: u32, link: RouterLinkModel)
        -> GraphModel {
        if link.link_type == LINK_P2P {
            self.link(router, link.link_id, link.metric as u32)
        } else if link.link_type == LINK_TRANSIT {
            match network_for(lsas, link.link_id) {
                Some(n) => self.fan_out(router, n.attached_routers, link.metric as u32),
                None => self,
            }
        } else if link.link_type == LINK_STUB {
            self.put(Node { id: link.link_id, mask: link.link_data, dis: UNREACHED }, 0).link(
                router,
                link.link_id,
                link.metric as u32,
            )
        } else {
            self
        }
    }

    /// The graph with what the links of router `router` add, one after the
    /// other.
    pub open spec fn with_links(
        self,
        lsas: Seq<LsaModel>,
        router: u32,
        links: Seq<RouterLinkModel>,
    ) -> GraphModel
        decreases links.len(),
    {
        if links.len() == 0 {
            self
        } else {
            self.with_links(lsas, router, links.drop_last()).with_link(lsas, router, links.last())
        }
    }

    /// The graph with the node of a router and what its links add.
    pub open spec fn with_router(self, lsas: Seq<LsaModel>, r: RouterModel) -> GraphModel {
        self.put(Node { id: r.header.link_state_id, mask: 0, dis: UNREACHED }, 0).with_links(
            lsas,
            r.header.link_state_id,
            r.links,
        )
    }

    /// The graph with the node of a transit network and an edge of weight 0
    /// to it from each router attached to it.
    pub open spec fn with_network(self, n: NetworkModel) -> GraphModel {
        let id = n.header.link_state_id & n.network_mask;
        self.put(Node { id, mask: n.network_mask, dis: UNREACHED }, 0).fan_in(
            n.attached_routers,
            id,
        )
    }

    /// The graph with what one advertisement adds: a router or a network
    /// advertisement as above, any other nothing.
    pub open spec fn with_lsa(self, lsas: Seq<LsaModel>, lsa: LsaModel) -> GraphModel {
        match lsa {
            LsaModel::Router(r) => self.with_router(lsas, r),
            LsaModel::Network(n) => self.with_network(n),
            _ => self,
        }
    }

    /// The graph with what the first `upto` advertisements of `lsas` add.
    pub open spec fn with_lsas(self, lsas: Seq<LsaModel>, upto: nat) -> GraphModel
        decreases upto,
    {
        if upto == 0 {
            self
        } else {
            self.with_lsas(lsas, (upto - 1) as nat).with_lsa(lsas, lsas[upto - 1])
        }
    }

    /// The graph of a database: what all its advertisements add to the empty
    /// graph.
    pub open spec fn of(lsas: Seq<LsaModel>) -> GraphModel {
        GraphModel::empty().with_lsas(lsas, lsas.len())
    }

    /// The distances of the nodes.
    pub open spec fn distances(self) -> Seq<u32> {
        self.nodes.map_values(|n: Node| n.dis)
    }

    /// `self` is `built` after the search from `source`: the same nodes and
    /// edges, with the shortest distances and the tree of shortest paths.
    pub open spec fn searched_from(self, built: GraphModel, source: u32) -> bool {
        &&& self.nodes.len() == built.nodes.len()
        &&& forall|i: int|
            0 <= i < self.nodes.len() ==> (#[trigger] self.nodes[i]).id == built.nodes[i].id
                && self.nodes[i].mask == built.nodes[i].mask
        &&& self.edges == built.edges
        &&& shortest(self.nodes, self.edges, source, self.distances(), self.prevs)
    }

    /// The graph with the destination of a network summary. A summary by
    /// this router, by a router that is no node, or by a router that is not
    /// reached adds nothing, and so does one whose distance would not be
    /// under `u32::MAX`. Another adds the destination as a node at the
    /// distance of the router that advertises it and the summary's metric,
    /// with that router before it, and an edge from that router to it.
    pub open spec fn with_summary(self, l: LsaSum, router_id: u32) -> GraphModel {
        if l.header.advertising_router == router_id {
            self
        } else {
            match index_of(self.nodes, l.header.advertising_router) {
                None => self,
                Some(i) => if self.nodes[i].dis + l.metric >= UNREACHED {
                    self
                } else {
                    self.put(
                        Node {
                            id: l.header.link_state_id,
                            mask: l.network_mask,
                            dis: (self.nodes[i].dis + l.metric) as u32,
                        },
                        l.header.advertising_router,
                    ).link(l.header.advertising_router, l.header.link_state_id, l.metric)
                },
            }
        }
    }

    /// The graph with the destinations of the network summaries among the
    /// first `upto` advertisements of `lsas`.
    pub open spec fn with_summaries(self, lsas: Seq<LsaModel>, upto: nat, router_id: u32)
        -> GraphModel
        decreases upto,
    {
        if upto == 0 {
            self
        } else {
            let g = self.with_summaries(lsas, (upto - 1) as nat, router_id);
            match lsas[upto - 1] {
                LsaModel::Sumnet(l) => g.with_summary(l, router_id),
                _ => g,
            }
        }
    }

    /// `self` is the graph of the database `lsas` after the search from
    /// `router_id`, whose outcome is `searched`, with the destinations of the
    /// network summaries added.
    pub open spec fn computed_from(self, lsas: Seq<LsaModel>, router_id: u32, searched: GraphModel)
        -> bool {
        searched.searched_from(GraphModel::of(lsas), router_id) && self
            == searched.with_summaries(lsas, lsas.len(), router_id)
    }

    /// The first hop on the way from `router_id` to node `cur`: `cur` itself
    /// if this router is the node before it, else the first hop to the node
    /// before it. `None` where the way back does not end at this router
    /// within `fuel` steps.
    pub open spec fn first_hop(self, router_id: u32, cur: u32, fuel: nat) -> Option<u32>
        decreases fuel,
    {
        if fuel == 0 {
            None
        } else {
            match index_of(self.nodes, cur) {
                None => None,
                Some(i) => if self.prevs[i] == router_id {
                    Some(cur)
                } else {
                    self.first_hop(router_id, self.prevs[i], (fuel - 1) as nat)
                },
            }
        }
    }

    /// The route to `node`, if there is one: `node` is reached and is not
    /// this router, the way back from it ends at this router, and the router
    /// has an interface to send over.
    pub open spec fn route_to(self, ints: Seq<InterfaceAddr>, router_id: u32, node: Node) -> Option<
        RouteEntry,
    > {
        if node.dis == UNREACHED || node.id == router_id {
            None
        } else {
            match self.first_hop(router_id, node.id, self.nodes.len()) {
                None => None,
                Some(next_hop) => match egress(ints, node, next_hop) {
                    None => None,
                    Some(int_addr) => Some(
                        RouteEntry {
                            dest_id: node.id,
                            mask: node.mask,
                            next_hop,
                            metric: node.dis,
                            int_addr,
                        },
                    ),
                },
            }
        }
    }

    /// The routes to the first `upto` nodes, in the order of the nodes.
    pub open spec fn routes(self, ints: Seq<InterfaceAddr>, router_id: u32, upto: nat) -> Seq<
        RouteEntry,
    >
        decreases upto,
    {
        if upto == 0 {
            Seq::empty()
        } else {
            let before = self.routes(ints, router_id, (upto - 1) as nat);
            match self.route_to(ints, router_id, self.nodes[upto - 1]) {
                Some(e) => before.push(e),
                None => before,
            }
        }
    }
}

/// The interface serves for sending to `node` over `next_hop`: its address
/// is the next hop, or its address lies in the network of `node`, or the next
/// hop lies in its own network.
pub open spec fn serves(iface: InterfaceAddr, node: Node, next_hop: u32) -> bool {
    iface.addr == next_hop || iface.addr & node.mask == node.id || iface.addr & iface.mask
        == next_hop & iface.mask
}

/// The address of the first interface that serves for sending to `node`
/// over `next_hop`.
pub open spec fn egress(ints: Seq<InterfaceAddr>, node: Node, next_hop: u32) -> Option<u32>
    decreases ints.len(),
{
    if ints.len() == 0 {
        None
    } else {
        match egress(ints.drop_last(), node, next_hop) {
            Some(a) => Some(a),
            None => if serves(ints.last(), node, next_hop) {
                Some(ints.last().addr)
            } else {
                None
            },
        }
    }
}

/// The first hop to a node other than this router is not this router.
pub proof fn lemma_first_hop(g: GraphModel, router_id: u32, cur: u32, fuel: nat)
    requires
        cur != router_id,
    ensures
        g.first_hop(router_id, cur, fuel) matches Some(h) ==> h != router_id,
    decreases fuel,
{
    if fuel > 0 {
        match index_of(g.nodes, cur) {
            None => {},
            Some(i) => {
                if g.prevs[i] != router_id {
                    lemma_first_hop(g, router_id, g.prevs[i], (fuel - 1) as nat);
                }
            },
        }
    }
}

/// No route has this router as its next hop, and every route leads to a
/// reached node other than this router.
pub proof fn lemma_routes(g: GraphModel, ints: Seq<InterfaceAddr>, router_id: u32, upto: nat)
    requires
        upto <= g.nodes.len(),
    ensures
        forall|k: int|
            0 <= k < g.routes(ints, router_id, upto).len() ==> (#[trigger] g.routes(
                ints,
                router_id,
                upto,
            )[k]).next_hop != router_id && g.routes(ints, router_id, upto)[k].dest_id
                != router_id && g.routes(ints, router_id, upto)[k].metric < UNREACHED,
    decreases upto,
{
    if upto > 0 {
        lemma_routes(g, ints, router_id, (upto - 1) as nat);
        let node = g.nodes[upto - 1];
        let before = g.routes(ints, router_id, (upto - 1) as nat);
        let all = g.routes(ints, router_id, upto);
        if node.id != router_id {
            lemma_first_hop(g, router_id, node.id, g.nodes.len());
        }
        assert forall|k: int| 0 <= k < all.len() implies (#[trigger] all[k]).next_hop != router_id
            && all[k].dest_id != router_id && all[k].metric < UNREACHED by {
            if k < before.len() {
                assert(all[k] == before[k]);
            }
        }
    }
}

impl RouteTable {
    /// The graph that the table holds.
    pub open spec fn graph(&self) -> GraphModel {
        GraphModel { nodes: self.nodes@, prevs: self.prevs@, edges: self.edges@ }
    }

    /// Adds an edge of weight `dis` from `src` to each of `dsts` but `src`
    /// itself.
    pub fn fan_out(&mut self, src: u32, dsts: &Vec<u32>, dis: u32)
        ensures
            final(self).graph() == old(self).graph().fan_out(src, dsts@, dis),
            final(self).entries@ == old(self).entries@,
            final(self).nodes@ == old(self).nodes@,
            final(self).prevs@ == old(self).prevs@,
    {
        let ghost start = self.graph();
        assert(dsts@.take(0) =~= Seq::<u32>::empty());
        let mut i: usize = 0;
        while i < dsts.len()
            invariant
                i <= dsts.len(),
                self.graph() == start.fan_out(src, dsts@.take(i as int), dis),
                self.entries@ == old(self).entries@,
                self.nodes@ == old(self).nodes@,
                self.prevs@ == old(self).prevs@,
            decreases dsts.len() - i,
        {
            proof {
                let next = dsts@.take(i + 1);
                assert(next.drop_last() =~= dsts@.take(i as int));
            }
            if dsts[i] != src {
                self.put_or_update_edge(src, dsts[i], dis);
            }
            i += 1;
        }
        assert(dsts@.take(i as int) =~= dsts@);
    }

    /// Adds an edge of weight 0 from each of `srcs` to `dst`.
    pub fn fan_in(&mut self, srcs: &Vec<u32>, dst: u32)
        ensures
            final(self).graph() == old(self).graph().fan_in(srcs@, dst),
            final(self).entries@ == old(self).entries@,
            final(self).nodes@ == old(self).nodes@,
            final(self).prevs@ == old(self).prevs@,
    {
        let ghost start = self.graph();
        assert(srcs@.take(0) =~= Seq::<u32>::empty());
        let mut i: usize = 0;
        while i < srcs.len()
            invariant
                i <= srcs.len(),
                self.graph() == start.fan_in(srcs@.take(i as int), dst),
                self.entries@ == old(self).entries@,
                self.nodes@ == old(self).nodes@,
                self.prevs@ == old(self).prevs@,
            decreases srcs.len() - i,
        {
            proof {
                let next = srcs@.take(i + 1);
                assert(next.drop_last() =~= srcs@.take(i as int));
            }
            self.put_or_update_edge(srcs[i], dst, 0);
            i += 1;
        }
        assert(srcs@.take(i as int) =~= srcs@);
    }

    /// Adds what one link of router `router` adds to the graph.
    pub fn manage_link(&mut self, lsas: &Vec<Lsa>, router: u32, link: &LsaRouterLink)
        requires
            old(self).wf(),
        ensures
            final(self).wf(),
            final(self).graph() == old(self).graph().with_link(lsa_models(lsas@), router, link@),
            final(self).entries@ == old(self).entries@,
    {
        if link.link_type == LINK_P2P {
            self.put_or_update_edge(router, link.link_id, link.metric as u32);
        } else if link.link_type == LINK_TRANSIT {
            match network_in(lsas, link.link_id) {
                Some(n) => {
                    self.fan_out(router, &n.attached_routers, link.metric as u32);
                },
                None => {},
            }
        } else if link.link_type == LINK_STUB {
            self.put_node(Node { id: link.link_id, mask: link.link_data, dis: UNREACHED }, 0);
            self.put_or_update_edge(router, link.link_id, link.metric as u32);
        }
    }

    /// Adds the node of a router and what its links add to the graph.
    pub fn manage_router_lsa(&mut self, lsas: &Vec<Lsa>, lsa: &LsaRouter)
        requires
            old(self).wf(),
        ensures
            final(self).wf(),
            final(self).graph() == old(self).graph().with_router(lsa_models(lsas@), lsa@),
            final(self).entries@ == old(self).entries@,
    {
        let router = lsa.header.link_state_id;
        self.put_node(Node { id: router, mask: 0, dis: UNREACHED }, 0);
        let ghost start = self.graph();
        let ghost all = lsa_models(lsas@);
        assert(lsa@.links.take(0) =~= Seq::<RouterLinkModel>::empty());
        let mut i: usize = 0;
        while i < lsa.links.len()
            invariant
                i <= lsa.links.len(),
                self.wf(),
                all == lsa_models(lsas@),
                self.graph() == start.with_links(all, router, lsa@.links.take(i as int)),
                self.entries@ == old(self).entries@,
            decreases lsa.links.len() - i,
        {
            proof {
                let next = lsa@.links.take(i + 1);
                assert(next.drop_last() =~= lsa@.links.take(i as int));
                assert(next.last() == lsa.links[i as int]@);
            }
            self.manage_link(lsas, router, &lsa.links[i]);
            i += 1;
        }
        assert(lsa@.links.take(i as int) =~= lsa@.links);
    }

    /// Adds the node of a transit network and the edges to it to the graph.
    pub fn manage_network_lsa(&mut self, lsa: &LsaNetwork)
        requires
            old(self).wf(),
        ensures
            final(self).wf(),
            final(self).graph() == old(self).graph().with_network(lsa@),
            final(self).entries@ == old(self).entries@,
    {
        let id = lsa.header.link_state_id & lsa.network_mask;
        self.put_node(Node { id, mask: lsa.network_mask, dis: UNREACHED }, 0);
        self.fan_in(&lsa.attached_routers, id);
    }

    /// Replaces the graph by the graph of the database `lsas`.
    pub fn build_graph(&mut self, lsas: &Vec<Lsa>)
        ensures
            final(self).wf(),
            final(self).graph() == GraphModel::of(lsa_models(lsas@)),
            final(self).entries@ == old(self).entries@,
    {
        self.clear_graph();
        let ghost all = lsa_models(lsas@);
        assert(self.graph() =~= GraphModel::empty()) by {
            assert(self.nodes@ =~= Seq::<Node>::empty());
            assert(self.prevs@ =~= Seq::<u32>::empty());
            assert(self.edges@ =~= Seq::<(u32, Edge)>::empty());
        }
        let mut i: usize = 0;
        while i < lsas.len()
            invariant
                i <= lsas.len(),
                self.wf(),
                all == lsa_models(lsas@),
                self.graph() == GraphModel::empty().with_lsas(all, i as nat),
                self.entries@ == old(self).entries@,
            decreases lsas.len() - i,
        {
            assert(all[i as int] == lsas[i as int]@);
            match &lsas[i] {
                Lsa::LsaRouter(l) => {
                    self.manage_router_lsa(lsas, l);
                },
                Lsa::LsaNetwork(l) => {
                    self.manage_network_lsa(l);
                },
                _ => {},
            }
            i += 1;
        }
    }

    /// Searches the graph from `source`: sets every node's distance to its
    /// shortest distance from `source`, and the node before it to the one
    /// before it on a shortest path.
    pub fn run_dijkstra(&mut self, source: u32)
        requires
            old(self).wf(),
        ensures
            final(self).wf(),
            final(self).graph().searched_from(old(self).graph(), source),
            final(self).entries@ == old(self).entries@,
    {
        let (dis, prev) = shortest_paths(&self.nodes, &self.edges, source);
        let n = self.nodes.len();
        let ghost before = self.nodes@;
        let mut i: usize = 0;
        while i < n
            invariant
                i <= n,
                n == before.len(),
                dis@.len() == n,
                self.nodes@.len() == n,
                self.edges@ == old(self).edges@,
                self.entries@ == old(self).entries@,
                self.prevs@ == old(self).prevs@,
                forall|j: int|
                    0 <= j < n ==> (#[trigger] self.nodes@[j]).id == before[j].id
                        && self.nodes@[j].mask == before[j].mask,
                forall|j: int| 0 <= j < i ==> (#[trigger] self.nodes@[j]).dis == dis@[j],
            decreases n - i,
        {
            let node = self.nodes[i];
            self.nodes[i] = Node { id: node.id, mask: node.mask, dis: dis[i] };
            i += 1;
        }
        self.prevs = prev;
        proof {
            let g = self.graph();
            assert(g.distances() =~= dis@);
            assert(unique_ids(self.nodes@)) by {
                assert forall|a: int, b: int|
                    0 <= a < n && 0 <= b < n && a != b implies (#[trigger] self.nodes@[a]).id != (
                #[trigger] self.nodes@[b]).id by {
                    assert(before[a].id != before[b].id);
                }
            }
            lemma_same_ids_shortest(before, self.nodes@, self.edges@, source, dis@, self.prevs@);
        }
    }

    /// Adds the destination of a network summary to the graph.
    pub fn manage_summary(&mut self, l: &LsaSum, router_id: u32)
        requires
            old(self).wf(),
        ensures
            final(self).wf(),
            final(self).graph() == old(self).graph().with_summary(*l, router_id),
            final(self).entries@ == old(self).entries@,
    {
        if l.header.advertising_router == router_id {
            return ;
        }
        match find_node(&self.nodes, l.header.advertising_router) {
            None => {},
            Some(i) => {
                let total: u64 = self.nodes[i].dis as u64 + l.metric as u64;
                if total < UNREACHED as u64 {
                    self.put_node(
                        Node {
                            id: l.header.link_state_id,
                            mask: l.network_mask,
                            dis: total as u32,
                        },
                        l.header.advertising_router,
                    );
                    self.put_or_update_edge(
                        l.header.advertising_router,
                        l.header.link_state_id,
                        l.metric,
                    );
                }
            },
        }
    }

    /// Adds the destinations of the network summaries of `lsas` to the graph.
    pub fn add_summaries(&mut self, lsas: &Vec<Lsa>, router_id: u32)
        requires
            old(self).wf(),
        ensures
            final(self).wf(),
            final(self).graph() == old(self).graph().with_summaries(
                lsa_models(lsas@),
                lsas@.len(),
                router_id,
            ),
            final(self).entries@ == old(self).entries@,
    {
        let ghost all = lsa_models(lsas@);
        let ghost start = self.graph();
        let mut i: usize = 0;
        while i < lsas.len()
            invariant
                i <= lsas.len(),
                self.wf(),
                all == lsa_models(lsas@),
                self.graph() == start.with_summaries(all, i as nat, router_id),
                self.entries@ == old(self).entries@,
            decreases lsas.len() - i,
        {
            assert(all[i as int] == lsas[i as int]@);
            match &lsas[i] {
                Lsa::LsaSumnet(l) => {
                    self.manage_summary(l, router_id);
                },
                _ => {},
            }
            i += 1;
        }
    }

    /// The first hop on the way from `router_id` to node `dest`, found by
    /// going back from node to node at most as many steps as there are nodes.
    pub fn next_hop_to(&self, router_id: u32, dest: u32) -> (hop: Option<u32>)
        requires
            self.wf(),
        ensures
            hop == self.graph().first_hop(router_id, dest, self.nodes@.len()),
    {
        let ghost g = self.graph();
        let mut cur = dest;
        let mut fuel: usize = self.nodes.len();
        while fuel > 0
            invariant
                self.wf(),
                g == self.graph(),
                g.first_hop(router_id, dest, self.nodes@.len()) == g.first_hop(
                    router_id,
                    cur,
                    fuel as nat,
                ),
            decreases fuel,
        {
            match find_node(&self.nodes, cur) {
                None => {
                    return None;
                },
                Some(i) => {
                    if self.prevs[i] == router_id {
                        return Some(cur);
                    }
                    cur = self.prevs[i];
                },
            }
            fuel -= 1;
        }
        None
    }

    /// Replaces the routes by the routes on the graph as it stands.
    pub fn build_entries(&mut self, ints: &Vec<InterfaceAddr>, router_id: u32)
        requires
            old(self).wf(),
        ensures
            final(self).wf(),
            final(self).graph() == old(self).graph(),
            final(self).entries@ == final(self).graph().routes(
                ints@,
                router_id,
                final(self).nodes@.len(),
            ),
    {
        self.entries.clear();
        let ghost g = self.graph();
        assert(self.entries@ =~= g.routes(ints@, router_id, 0));
        let mut i: usize = 0;
        while i < self.nodes.len()
            invariant
                i <= self.nodes.len(),
                self.wf(),
                g == self.graph(),
                self.entries@ == g.routes(ints@, router_id, i as nat),
            decreases self.nodes.len() - i,
        {
            let node = self.nodes[i];
            if node.dis != UNREACHED && node.id != router_id {
                match self.next_hop_to(router_id, node.id) {
                    None => {},
                    Some(next_hop) => {
                        match find_egress(ints, &node, next_hop) {
                            None => {},
                            Some(int_addr) => {
                                self.entries.push(
                                    RouteEntry {
                                        dest_id: node.id,
                                        mask: node.mask,
                                        next_hop,
                                        metric: node.dis,
                                        int_addr,
                                    },
                                );
                            },
                        }
                    },
                }
            }
            i += 1;
        }
    }
}

/// The search result for one list of nodes holds for any list with the same
/// ids.
pub proof fn lemma_same_ids_shortest(
    a: Seq<Node>,
    b: Seq<Node>,
    edges: Seq<(u32, Edge)>,
    source: u32,
    dis: Seq<u32>,
    prev: Seq<u32>,
)
    requires
        a.len() == b.len(),
        forall|i: int| 0 <= i < a.len() ==> (#[trigger] b[i]).id == a[i].id,
        shortest(a, edges, source, dis, prev),
    ensures
        shortest(b, edges, source, dis, prev),
{
    let rank = choose|rank: Seq<nat>|
        rank.len() == a.len() && crate::route::all_rooted(a, dis, prev, edges, source, rank);
    assert forall|j: int| 0 <= j < b.len() && (#[trigger] dis[j]) < UNREACHED implies (b[j].id
        == source && dis[j] == 0) || exists|i: int, k: int|
        crate::route::reached_over(b, dis, prev, edges, j, i, k) && rank[i] < rank[j] by {
        assert(b[j].id == a[j].id);
        if !(a[j].id == source && dis[j] == 0) {
            let (i, k) = choose|i: int, k: int|
                crate::route::reached_over(a, dis, prev, edges, j, i, k) && rank[i] < rank[j];
            assert(b[i].id == a[i].id);
            assert(crate::route::reached_over(b, dis, prev, edges, j, i, k) && rank[i] < rank[j]);
        }
    }
    assert(crate::route::all_rooted(b, dis, prev, edges, source, rank));
    assert forall|k: int, i: int, j: int|
        #![trigger edges[k], b[i], b[j]]
        0 <= k < edges.len() && 0 <= i < b.len() && 0 <= j < b.len() implies crate::route::edge_relaxed(
        b,
        dis,
        edges[k],
        i,
        j,
    ) by {
        assert(b[i].id == a[i].id && b[j].id == a[j].id);
        assert(crate::route::edge_relaxed(a, dis, edges[k], i, j));
    }
    assert forall|s: int| 0 <= s < b.len() && (#[trigger] b[s]).id == source implies dis[s]
        == 0 by {
        assert(a[s].id == source);
    }
}

/// The address of the first interface that serves for sending to `node`
/// over `next_hop`.
pub fn find_egress(ints: &Vec<InterfaceAddr>, node: &Node, next_hop: u32) -> (a: Option<u32>)
    ensures
        a == egress(ints@, *node, next_hop),
{
    let mut i: usize = 0;
    assert(ints@.take(0) =~= Seq::<InterfaceAddr>::empty());
    while i < ints.len()
        invariant
            i <= ints.len(),
            egress(ints@.take(i as int), *node, next_hop) is None,
        decreases ints.len() - i,
    {
        let iface = ints[i];
        proof {
            let next = ints@.take(i + 1);
            assert(next.drop_last() =~= ints@.take(i as int));
        }
        if iface.addr == next_hop || iface.addr & node.mask == node.id || iface.addr
            & iface.mask == next_hop & iface.mask {
            proof {
                lemma_egress_found(ints@, *node, next_hop, i as int);
            }
            return Some(iface.addr);
        }
        i += 1;
    }
    assert(ints@.take(i as int) =~= ints@);
    None
}

/// Where the first `i + 1` interfaces have one that serves, the whole list
/// gives the same one.
pub proof fn lemma_egress_found(ints: Seq<InterfaceAddr>, node: Node, next_hop: u32, i: int)
    requires
        0 <= i < ints.len(),
        egress(ints.take(i + 1), node, next_hop) is Some,
    ensures
        egress(ints, node, next_hop) == egress(ints.take(i + 1), node, next_hop),
    decreases ints.len(),
{
    if i + 1 < ints.len() {
        let init = ints.drop_last();
        assert(init.take(i + 1) =~= ints.take(i + 1));
        lemma_egress_found(init, node, next_hop, i);
    } else {
        assert(ints.take(i + 1) =~= ints);
    }
}

impl LinkStateDatabase {
    /// Computes the routes anew from the advertisements of the database:
    /// builds the graph, searches it from this router, adds the destinations
    /// of the network summaries, and lists the route to every reached node.
    /// No route has this router as its next hop.
    pub fn update_route_table(&mut self)
        ensures
            final(self)@ == old(self)@,
            final(self).routes_current(),
            final(self).route_table.wf(),
            exists|searched: GraphModel|
                final(self).route_table.graph().computed_from(
                    contributing(old(self)@.lsas),
                    old(self)@.config.router_id,
                    searched,
                ),
            final(self).route_table.entries@ == final(self).route_table.graph().routes(
                old(self)@.ints,
                old(self)@.config.router_id,
                final(self).route_table.nodes@.len(),
            ),
            forall|k: int|
                0 <= k < final(self).route_table.entries@.len() ==> (
                #[trigger] final(self).route_table.entries@[k]).next_hop
                    != old(self)@.config.router_id,
    {
        let router_id = self.global_config.router_id;
        let live = self.select(&LsaKey::Live);
        let ghost lsas = contributing(self@.lsas);
        self.route_table.build_graph(&live);
        self.route_table.run_dijkstra(router_id);
        let ghost searched = self.route_table.graph();
        self.route_table.add_summaries(&live, router_id);
        self.route_table.build_entries(&self.int_list, router_id);
        proof {
            lemma_routes(
                self.route_table.graph(),
                self.int_list@,
                router_id,
                self.route_table.nodes@.len(),
            );
            assert(lsas.len() == live@.len());
            assert(self.route_table.graph().computed_from(lsas, router_id, searched));
            assert(lsas == contributing(old(self)@.lsas));
            assert(router_id == old(self)@.config.router_id);
            assert(self.route_table.graph().computed_from(
                contributing(old(self)@.lsas),
                old(self)@.config.router_id,
                searched,
            ));
        }
    }
}

} // verus!
