//! The topology graph and the routes computed on it.

use vstd::prelude::*;

verus! {

/// One route: how to reach a destination.
#[derive(Debug, Clone, Copy, PartialEq, Eq, Structural)]
pub struct RouteEntry {
    pub dest_id: u32,
    pub mask: u32,
    pub next_hop: u32,
    pub metric: u32,
    pub int_addr: u32,
}

/// A node of the graph: a router or a network, and its distance from this
/// router. A distance of `u32::MAX` stands for "not reached".
#[derive(Debug, Clone, Copy, PartialEq, Eq, Structural)]
pub struct Node {
    pub id: u32,
    pub mask: u32,
    pub dis: u32,
}

/// An edge of the graph as seen from its source: where it leads, and its
/// weight.
#[derive(Debug, Clone, Copy, PartialEq, Eq, Structural)]
pub struct Edge {
    pub dst: u32,
    pub dis: u32,
}

/// The distance that stands for "not reached".
pub const UNREACHED: u32 = u32::MAX;

/// The routes, and the graph they were computed on: the nodes, for each node
/// the node before it on the way from this router, and the edges with their
/// sources.
#[derive(Debug)]
pub struct RouteTable {
    pub entries: Vec<RouteEntry>,
    pub nodes: Vec<Node>,
    pub prevs: Vec<u32>,
    pub edges: Vec<(u32, Edge)>,
}

/// No two nodes have the same id.
pub open spec fn unique_ids(nodes: Seq<Node>) -> bool {
    forall|i: int, j: int|
        0 <= i < nodes.len() && 0 <= j < nodes.len() && i != j ==> (#[trigger] nodes[i]).id != (
        #[trigger] nodes[j]).id
}

/// The place of the first node with the given id.
pub open spec fn index_of(nodes: Seq<Node>, id: u32) -> Option<int>
    decreases nodes.len(),
{
    if nodes.len() == 0 {
        None
    } else {
        match index_of(nodes.drop_last(), id) {
            Some(i) => Some(i),
            None => if nodes.last().id == id {
                Some(nodes.len() - 1)
            } else {
                None
            },
        }
    }
}

/// What `index_of` finds is the first node with the id.
pub proof fn lemma_index_of(nodes: Seq<Node>, id: u32)
    ensures
        match index_of(nodes, id) {
            Some(i) => 0 <= i < nodes.len() && nodes[i].id == id && forall|j: int|
                0 <= j < i ==> (#[trigger] nodes[j]).id != id,
            None => forall|j: int| 0 <= j < nodes.len() ==> (#[trigger] nodes[j]).id != id,
        },
    decreases nodes.len(),
{
    if nodes.len() > 0 {
        let init = nodes.drop_last();
        lemma_index_of(init, id);
        match index_of(init, id) {
            Some(i) => {
                assert forall|j: int| 0 <= j < i implies (#[trigger] nodes[j]).id != id by {
                    assert(init[j] == nodes[j]);
                }
                assert(init[i] == nodes[i]);
            },
            None => {
                assert forall|j: int| 0 <= j < nodes.len() - 1 implies (#[trigger] nodes[j]).id
                    != id by {
                    assert(init[j] == nodes[j]);
                }
            },
        }
    }
}

/// `nodes` with `node` in the place of the node with its id, or at the end
/// where there is none.
pub open spec fn with_node(nodes: Seq<Node>, node: Node) -> Seq<Node> {
    match index_of(nodes, node.id) {
        Some(i) => nodes.update(i, node),
        None => nodes.push(node),
    }
}

/// Putting a node keeps the ids unique.
pub proof fn lemma_with_node(nodes: Seq<Node>, node: Node)
    requires
        unique_ids(nodes),
    ensures
        unique_ids(with_node(nodes, node)),
{
    lemma_index_of(nodes, node.id);
    let after = with_node(nodes, node);
    assert forall|i: int, j: int|
        0 <= i < after.len() && 0 <= j < after.len() && i != j implies (#[trigger] after[i]).id
        != (#[trigger] after[j]).id by {
        match index_of(nodes, node.id) {
            Some(p) => {
                assert(after[i].id == nodes[i].id);
                assert(after[j].id == nodes[j].id);
            },
            None => {
                if i < nodes.len() && j < nodes.len() {
                    assert(after[i] == nodes[i] && after[j] == nodes[j]);
                } else if i < nodes.len() {
                    assert(after[i] == nodes[i]);
                } else {
                    assert(after[j] == nodes[j]);
                }
            },
        }
    }
}

/// Along edge `e`, from node `i` to node `j`, the distance does not grow by
/// more than the edge's weight.
pub open spec fn edge_relaxed(nodes: Seq<Node>, dis: Seq<u32>, e: (u32, Edge), i: int, j: int)
    -> bool {
    nodes[i].id == e.0 && nodes[j].id == e.1.dst && dis[i] < UNREACHED ==> dis[j] <= dis[i]
        + e.1.dis
}

/// Every edge that leaves a reached node is relaxed: no distance can be
/// improved any more.
pub open spec fn all_relaxed(nodes: Seq<Node>, dis: Seq<u32>, edges: Seq<(u32, Edge)>) -> bool {
    forall|k: int, i: int, j: int|
        #![trigger edges[k], nodes[i], nodes[j]]
        0 <= k < edges.len() && 0 <= i < nodes.len() && 0 <= j < nodes.len() ==> edge_relaxed(
            nodes,
            dis,
            edges[k],
            i,
            j,
        )
}

/// Node `j` is reached from node `i` over edge `k`: `i` is the node before
/// `j`, it is reached, and the distance of `j` is that of `i` and the edge's
/// weight.
pub open spec fn reached_over(
    nodes: Seq<Node>,
    dis: Seq<u32>,
    prev: Seq<u32>,
    edges: Seq<(u32, Edge)>,
    j: int,
    i: int,
    k: int,
) -> bool {
    &&& 0 <= i < nodes.len()
    &&& 0 <= k < edges.len()
    &&& nodes[i].id == prev[j]
    &&& edges[k].0 == nodes[i].id
    &&& edges[k].1.dst == nodes[j].id
    &&& dis[i] < UNREACHED
    &&& dis[j] == dis[i] + edges[k].1.dis
}

/// Every reached node is the source, at distance 0, or is reached from the
/// node before it over an edge of the graph. The node before it has a lower
/// rank, so that going back from node to node ends at the source.
pub open spec fn all_rooted(
    nodes: Seq<Node>,
    dis: Seq<u32>,
    prev: Seq<u32>,
    edges: Seq<(u32, Edge)>,
    source: u32,
    rank: Seq<nat>,
) -> bool {
    forall|j: int|
        0 <= j < nodes.len() && (#[trigger] dis[j]) < UNREACHED ==> (nodes[j].id == source
            && dis[j] == 0) || exists|i: int, k: int|
            reached_over(nodes, dis, prev, edges, j, i, k) && rank[i] < rank[j]
}

/// `dis` and `prev` hold the shortest distances from `source` on the graph
/// and a tree of shortest paths.
///
/// The source, if it is a node, is at distance 0. Every other reached node
/// is at the distance of the node before it and the weight of an edge
/// between them, and the nodes can be ranked so that the node before has the
/// lower rank: the distance of a reached node is the weight of a path from
/// the source. And no edge leads from a reached node to a node that is
/// farther away than the edge allows, so that no path is shorter. A node is
/// not reached where every path to it weighs `u32::MAX` or more.
pub open spec fn shortest(
    nodes: Seq<Node>,
    edges: Seq<(u32, Edge)>,
    source: u32,
    dis: Seq<u32>,
    prev: Seq<u32>,
) -> bool {
    &&& dis.len() == nodes.len()
    &&& prev.len() == nodes.len()
    &&& forall|s: int| 0 <= s < nodes.len() && (#[trigger] nodes[s]).id == source ==> dis[s] == 0
    &&& exists|rank: Seq<nat>|
        rank.len() == nodes.len() && all_rooted(nodes, dis, prev, edges, source, rank)
    &&& all_relaxed(nodes, dis, edges)
}

/// The number of nodes that are not settled.
pub open spec fn unsettled(done: Seq<bool>) -> nat
    decreases done.len(),
{
    if done.len() == 0 {
        0
    } else {
        unsettled(done.drop_last()) + if done.last() {
            0nat
        } else {
            1nat
        }
    }
}

/// Settling a node leaves one node fewer unsettled.
proof fn lemma_settle(done: Seq<bool>, u: int)
    requires
        0 <= u < done.len(),
        !done[u],
    ensures
        unsettled(done.update(u, true)) + 1 == unsettled(done),
    decreases done.len(),
{
    let after = done.update(u, true);
    if u == done.len() - 1 {
        assert(after.drop_last() =~= done.drop_last());
    } else {
        assert(after.drop_last() =~= done.drop_last().update(u, true));
        lemma_settle(done.drop_last(), u);
    }
}

/// The place of the node with the given id.
pub fn find_node(nodes: &Vec<Node>, id: u32) -> (at: Option<usize>)
    ensures
        match at {
            Some(i) => index_of(nodes@, id) == Some(i as int) && i < nodes@.len() && nodes@[i as int].id
                == id,
            None => index_of(nodes@, id) is None && forall|j: int|
                0 <= j < nodes@.len() ==> (#[trigger] nodes@[j]).id != id,
        },
{
    let mut i: usize = 0;
    while i < nodes.len()
        invariant
            i <= nodes.len(),
            forall|j: int| 0 <= j < i ==> (#[trigger] nodes@[j]).id != id,
        decreases nodes.len() - i,
    {
        if nodes[i].id == id {
            proof {
                lemma_index_of(nodes@, id);
                match index_of(nodes@, id) {
                    Some(p) => {
                        if p < i {
                            assert(nodes@[p].id != id);
                        }
                    },
                    None => {
                        assert(nodes@[i as int].id != id);
                    },
                }
            }
            return Some(i);
        }
        i += 1;
    }
    proof {
        lemma_index_of(nodes@, id);
        match index_of(nodes@, id) {
            Some(p) => {
                assert(nodes@[p].id != id);
            },
            None => {},
        }
    }
    None
}

/// The unsettled node with the least distance, if any node is unsettled.
fn nearest_unsettled(dis: &Vec<u32>, done: &Vec<bool>) -> (at: Option<usize>)
    requires
        dis@.len() == done@.len(),
    ensures
        match at {
            Some(u) => u < done@.len() && !done@[u as int] && forall|j: int|
                0 <= j < done@.len() && !(#[trigger] done@[j]) ==> dis@[u as int] <= dis@[j],
            None => forall|j: int| 0 <= j < done@.len() ==> #[trigger] done@[j],
        },
{
    let mut best: Option<usize> = None;
    let mut k: usize = 0;
    while k < done.len()
        invariant
            k <= done.len(),
            dis@.len() == done@.len(),
            match best {
                Some(u) => u < k && !done@[u as int] && forall|j: int|
                    0 <= j < k && !(#[trigger] done@[j]) ==> dis@[u as int] <= dis@[j],
                None => forall|j: int| 0 <= j < k ==> #[trigger] done@[j],
            },
        decreases done.len() - k,
    {
        if !done[k] {
            match best {
                None => {
                    best = Some(k);
                },
                Some(u) => {
                    if dis[k] < dis[u] {
                        best = Some(k);
                    }
                },
            }
        }
        k += 1;
    }
    best
}

/// A reached node `j` is the source, or is reached over an edge from a
/// settled node, which was settled before it if `j` is settled too.
pub open spec fn rooted_in_settled(
    nodes: Seq<Node>,
    edges: Seq<(u32, Edge)>,
    source: u32,
    dis: Seq<u32>,
    prev: Seq<u32>,
    done: Seq<bool>,
    rank: Seq<nat>,
    j: int,
) -> bool {
    (nodes[j].id == source && dis[j] == 0) || exists|i: int, k: int|
        reached_over(nodes, dis, prev, edges, j, i, k) && done[i] && (done[j] ==> rank[i]
            < rank[j])
}

/// What holds between two rounds of the search: the settled nodes are
/// reached and no farther than any unsettled node, every edge that leaves a
/// settled node is relaxed, and every reached node is the source or is
/// reached from a settled node over an edge.
pub open spec fn search_state(
    nodes: Seq<Node>,
    edges: Seq<(u32, Edge)>,
    source: u32,
    dis: Seq<u32>,
    prev: Seq<u32>,
    done: Seq<bool>,
    rank: Seq<nat>,
    round: nat,
) -> bool {
    &&& dis.len() == nodes.len()
    &&& prev.len() == nodes.len()
    &&& done.len() == nodes.len()
    &&& rank.len() == nodes.len()
    &&& forall|i: int| 0 <= i < nodes.len() && (#[trigger] done[i]) ==> rank[i] < round
    &&& forall|i: int| 0 <= i < nodes.len() && (#[trigger] done[i]) ==> dis[i] < UNREACHED
    &&& forall|i: int, j: int|
        0 <= i < nodes.len() && 0 <= j < nodes.len() && (#[trigger] done[i]) && !(
        #[trigger] done[j]) ==> dis[i] <= dis[j]
    &&& forall|s: int|
        0 <= s < nodes.len() && (#[trigger] nodes[s]).id == source ==> dis[s] == 0
    &&& forall|j: int|
        0 <= j < nodes.len() && (#[trigger] dis[j]) < UNREACHED ==> rooted_in_settled(
            nodes,
            edges,
            source,
            dis,
            prev,
            done,
            rank,
            j,
        )
}

/// Every edge among the first `upto` that leaves node `u`, and every edge
/// that leaves another settled node, is relaxed.
pub open spec fn settled_relaxed(
    nodes: Seq<Node>,
    edges: Seq<(u32, Edge)>,
    dis: Seq<u32>,
    done: Seq<bool>,
    u: int,
    upto: int,
) -> bool {
    forall|k: int, i: int, j: int|
        #![trigger edges[k], nodes[i], nodes[j]]
        0 <= k < edges.len() && 0 <= i < nodes.len() && 0 <= j < nodes.len() && done[i] && (i
            != u || k < upto) ==> edge_relaxed(nodes, dis, edges[k], i, j)
}

/// The shortest distances from `source` to the nodes of the graph, and for
/// each node the id of the node before it on a shortest path (0 where there
/// is none). Edges whose ends are not nodes are left out of account.
#[verifier::rlimit(40)]
pub fn shortest_paths(nodes: &Vec<Node>, edges: &Vec<(u32, Edge)>, source: u32) -> (r: (
    Vec<u32>,
    Vec<u32>,
))
    requires
        unique_ids(nodes@),
    ensures
        shortest(nodes@, edges@, source, r.0@, r.1@),
{
    let n = nodes.len();
    let mut dis: Vec<u32> = Vec::new();
    let mut prev: Vec<u32> = Vec::new();
    let mut done: Vec<bool> = Vec::new();
    let mut i: usize = 0;
    while i < n
        invariant
            i <= n,
            n == nodes@.len(),
            dis@.len() == i,
            prev@.len() == i,
            done@.len() == i,
            forall|j: int| 0 <= j < i ==> (#[trigger] dis@[j]) == UNREACHED,
            forall|j: int| 0 <= j < i ==> !(#[trigger] done@[j]),
        decreases n - i,
    {
        dis.push(UNREACHED);
        prev.push(0);
        done.push(false);
        i += 1;
    }
    match find_node(nodes, source) {
        Some(s) => {
            dis[s] = 0;
            proof {
                assert forall|t: int| 0 <= t < nodes@.len() && (#[trigger] nodes@[t]).id
                    == source implies dis@[t] == 0 by {
                    if t != s {
                        assert(nodes@[t].id != nodes@[s as int].id);
                    }
                }
            }
        },
        None => {},
    }
    let ghost mut rank: Seq<nat> = Seq::new(n as nat, |j: int| 0nat);
    let ghost mut round: nat = 1;
    assert(search_state(nodes@, edges@, source, dis@, prev@, done@, rank, round));
    assert(settled_relaxed(nodes@, edges@, dis@, done@, -1, 0));
    loop
        invariant
            n == nodes@.len(),
            unique_ids(nodes@),
            search_state(nodes@, edges@, source, dis@, prev@, done@, rank, round),
            settled_relaxed(nodes@, edges@, dis@, done@, -1, 0),
        ensures
            search_state(nodes@, edges@, source, dis@, prev@, done@, rank, round),
            settled_relaxed(nodes@, edges@, dis@, done@, -1, 0),
            forall|j: int| 0 <= j < nodes@.len() && !(#[trigger] done@[j]) ==> dis@[j] == UNREACHED,
        decreases unsettled(done@),
    {
        let u = match nearest_unsettled(&dis, &done) {
            None => {
                break ;
            },
            Some(u) => u,
        };
        if dis[u] == UNREACHED {
            break ;
        }
        let du = dis[u];
        let uid = nodes[u].id;
        proof {
            lemma_settle(done@, u as int);
        }
        let ghost done_before = done@;
        let ghost rank_before = rank;
        done[u] = true;
        proof {
            rank = rank.update(u as int, round);
            round = round + 1;
            assert forall|j: int|
                0 <= j < nodes@.len() && (#[trigger] dis@[j]) < UNREACHED implies rooted_in_settled(
                nodes@,
                edges@,
                source,
                dis@,
                prev@,
                done@,
                rank,
                j,
            ) by {
                assert(rooted_in_settled(
                    nodes@,
                    edges@,
                    source,
                    dis@,
                    prev@,
                    done_before,
                    rank_before,
                    j,
                ));
                if !(nodes@[j].id == source && dis@[j] == 0) {
                    let (i, k) = choose|i: int, k: int|
                        reached_over(nodes@, dis@, prev@, edges@, j, i, k) && done_before[i] && (
                        done_before[j] ==> rank_before[i] < rank_before[j]);
                    assert(i != u);
                    assert(reached_over(nodes@, dis@, prev@, edges@, j, i, k) && done@[i] && (
                    done@[j] ==> rank[i] < rank[j]));
                }
            }
            assert forall|k: int, i: int, j: int|
                #![trigger edges@[k], nodes@[i], nodes@[j]]
                0 <= k < edges@.len() && 0 <= i < nodes@.len() && 0 <= j < nodes@.len()
                    && done@[i] && (i != u || k < 0) implies edge_relaxed(
                nodes@,
                dis@,
                edges@[k],
                i,
                j,
            ) by {
                assert(done_before[i]);
            }
        }
        let mut k: usize = 0;
        while k < edges.len()
            invariant
                k <= edges.len(),
                n == nodes@.len(),
                u < n,
                unique_ids(nodes@),
                uid == nodes@[u as int].id,
                du < UNREACHED,
                dis@.len() == n,
                prev@.len() == n,
                done@.len() == n,
                rank.len() == n,
                done_before.len() == n,
                done@ == done_before.update(u as int, true),
                dis@[u as int] == du,
                forall|i: int| 0 <= i < n && (#[trigger] done@[i]) ==> rank[i] < round,
                forall|i: int| 0 <= i < n && (#[trigger] done@[i]) ==> dis@[i] <= du,
                forall|j: int| 0 <= j < n && !(#[trigger] done@[j]) ==> dis@[j] >= du,
                forall|s: int|
                    0 <= s < nodes@.len() && (#[trigger] nodes@[s]).id == source ==> dis@[s]
                        == 0,
                forall|j: int|
                    0 <= j < nodes@.len() && (#[trigger] dis@[j])
                        < UNREACHED ==> rooted_in_settled(
                        nodes@,
                        edges@,
                        source,
                        dis@,
                        prev@,
                        done@,
                        rank,
                        j,
                    ),
                settled_relaxed(nodes@, edges@, dis@, done@, u as int, k as int),
            decreases edges.len() - k,
        {
            let src = edges[k].0;
            let e = edges[k].1;
            let ghost dis_before = dis@;
            let ghost prev_before = prev@;
            let mut changed: Option<usize> = None;
            if src == uid {
                match find_node(nodes, e.dst) {
                    Some(v) => {
                        let alt: u64 = du as u64 + e.dis as u64;
                        if alt < dis[v] as u64 {
                            assert(!done@[v as int]);
                            dis[v] = alt as u32;
                            prev[v] = uid;
                            changed = Some(v);
                            assert(edges@[k as int].1.dst == nodes@[v as int].id);
                            assert(dis@[u as int] == du);
                            assert(reached_over(
                                nodes@,
                                dis@,
                                prev@,
                                edges@,
                                v as int,
                                u as int,
                                k as int,
                            ));
                        }
                    },
                    None => {},
                }
            }
            proof {
                match changed {
                    Some(v) => {
                        assert(dis@ == dis_before.update(v as int, (du + e.dis) as u32));
                        assert(v != u);
                        assert forall|s: int|
                            0 <= s < nodes@.len() && (#[trigger] nodes@[s]).id
                                == source implies dis@[s] == 0 by {
                            if s == v {
                                assert(dis_before[s] == 0);
                            }
                        }
                        assert forall|j: int|
                            0 <= j < nodes@.len() && (#[trigger] dis@[j])
                                < UNREACHED implies rooted_in_settled(
                            nodes@,
                            edges@,
                            source,
                            dis@,
                            prev@,
                            done@,
                            rank,
                            j,
                        ) by {
                            if j == v {
                                assert(reached_over(
                                    nodes@,
                                    dis@,
                                    prev@,
                                    edges@,
                                    j,
                                    u as int,
                                    k as int,
                                ) && done@[u as int] && (done@[j] ==> rank[u as int] < rank[j]));
                            } else {
                                assert(dis_before[j] < UNREACHED);
                                assert(rooted_in_settled(
                                    nodes@,
                                    edges@,
                                    source,
                                    dis_before,
                                    prev_before,
                                    done@,
                                    rank,
                                    j,
                                ));
                                if !(nodes@[j].id == source && dis@[j] == 0) {
                                    let (i, x) = choose|i: int, x: int|
                                        reached_over(
                                            nodes@,
                                            dis_before,
                                            prev_before,
                                            edges@,
                                            j,
                                            i,
                                            x,
                                        ) && done@[i] && (done@[j] ==> rank[i] < rank[j]);
                                    assert(i != v);
                                    assert(reached_over(nodes@, dis@, prev@, edges@, j, i, x)
                                        && done@[i] && (done@[j] ==> rank[i] < rank[j]));
                                }
                            }
                        }
                    },
                    None => {
                        assert(dis@ == dis_before);
                        assert(prev@ == prev_before);
                    },
                }
                assert forall|x: int, i: int, j: int|
                    #![trigger edges@[x], nodes@[i], nodes@[j]]
                    0 <= x < edges@.len() && 0 <= i < nodes@.len() && 0 <= j < nodes@.len()
                        && done@[i] && (i != u || x < k + 1) implies edge_relaxed(
                    nodes@,
                    dis@,
                    edges@[x],
                    i,
                    j,
                ) by {
                    if i == u && x == k {
                        if nodes@[i].id == edges@[x].0 && nodes@[j].id == edges@[x].1.dst {
                            match index_of(nodes@, e.dst) {
                                Some(v) => {
                                    if v != j {
                                        assert(nodes@[v].id != nodes@[j].id);
                                    }
                                },
                                None => {},
                            }
                        }
                    } else {
                        assert(edge_relaxed(nodes@, dis_before, edges@[x], i, j));
                        assert(dis@[i] == dis_before[i]);
                        assert(dis@[j] <= dis_before[j]);
                    }
                }
            }
            k += 1;
        }
        proof {
            assert forall|i: int, j: int|
                0 <= i < nodes@.len() && 0 <= j < nodes@.len() && (#[trigger] done@[i]) && !(
                #[trigger] done@[j]) implies dis@[i] <= dis@[j] by {}
            assert forall|x: int, i: int, j: int|
                #![trigger edges@[x], nodes@[i], nodes@[j]]
                0 <= x < edges@.len() && 0 <= i < nodes@.len() && 0 <= j < nodes@.len()
                    && done@[i] && (i != -1 || x < 0) implies edge_relaxed(
                nodes@,
                dis@,
                edges@[x],
                i,
                j,
            ) by {
                assert(i != u || x < edges@.len());
            }
        }
    }
    proof {
        assert forall|j: int| 0 <= j < nodes@.len() && (#[trigger] dis@[j]) < UNREACHED implies (
        nodes@[j].id == source && dis@[j] == 0) || exists|i: int, k: int|
            reached_over(nodes@, dis@, prev@, edges@, j, i, k) && rank[i] < rank[j] by {
            assert(rooted_in_settled(nodes@, edges@, source, dis@, prev@, done@, rank, j));
            if !(nodes@[j].id == source && dis@[j] == 0) {
                let (i, k) = choose|i: int, k: int|
                    reached_over(nodes@, dis@, prev@, edges@, j, i, k) && done@[i] && (done@[j]
                        ==> rank[i] < rank[j]);
                assert(done@[j]);
                assert(reached_over(nodes@, dis@, prev@, edges@, j, i, k) && rank[i] < rank[j]);
            }
        }
        assert(all_rooted(nodes@, dis@, prev@, edges@, source, rank));
        assert forall|k: int, i: int, j: int|
            #![trigger edges@[k], nodes@[i], nodes@[j]]
            0 <= k < edges@.len() && 0 <= i < nodes@.len() && 0 <= j < nodes@.len() implies edge_relaxed(
            nodes@,
            dis@,
            edges@[k],
            i,
            j,
        ) by {
            if dis@[i] < UNREACHED {
                assert(done@[i]);
            }
        }
    }
    (dis, prev)
}

impl RouteTable {
    /// The node ids are unique and every node has its entry in `prevs`.
    pub open spec fn wf(&self) -> bool {
        unique_ids(self.nodes@) && self.prevs@.len() == self.nodes@.len()
    }

    /// A table without routes, on an empty graph.
    pub fn new() -> (t: RouteTable)
        ensures
            t.entries@.len() == 0,
            t.nodes@.len() == 0,
            t.prevs@.len() == 0,
            t.edges@.len() == 0,
            t.wf(),
    {
        RouteTable { entries: Vec::new(), nodes: Vec::new(), prevs: Vec::new(), edges: Vec::new() }
    }

    /// Empties the graph; the routes stay.
    pub fn clear_graph(&mut self)
        ensures
            final(self).entries@ == old(self).entries@,
            final(self).nodes@.len() == 0,
            final(self).prevs@.len() == 0,
            final(self).edges@.len() == 0,
            final(self).wf(),
    {
        self.nodes.clear();
        self.edges.clear();
        self.prevs.clear();
    }

    /// Adds an edge from `src` to `dst` with weight `dis`.
    pub fn put_or_update_edge(&mut self, src: u32, dst: u32, dis: u32)
        ensures
            final(self).entries@ == old(self).entries@,
            final(self).nodes@ == old(self).nodes@,
            final(self).prevs@ == old(self).prevs@,
            final(self).edges@ == old(self).edges@.push((src, Edge { dst, dis })),
    {
        self.edges.push((src, Edge { dst, dis }));
    }

    /// Puts `node` in the place of the node with its id, or at the end where
    /// there is none, and makes `prev` the node before it.
    pub fn put_node(&mut self, node: Node, prev: u32)
        requires
            old(self).wf(),
        ensures
            final(self).wf(),
            final(self).entries@ == old(self).entries@,
            final(self).edges@ == old(self).edges@,
            final(self).nodes@ == with_node(old(self).nodes@, node),
            final(self).prevs@ == match index_of(old(self).nodes@, node.id) {
                Some(i) => old(self).prevs@.update(i, prev),
                None => old(self).prevs@.push(prev),
            },
    {
        proof {
            lemma_with_node(self.nodes@, node);
        }
        match find_node(&self.nodes, node.id) {
            Some(i) => {
                self.nodes[i] = node;
                self.prevs[i] = prev;
            },
            None => {
                self.nodes.push(node);
                self.prevs.push(prev);
            },
        }
    }
}

} // verus!
