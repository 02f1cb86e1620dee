use ospf_core::config::Config;
use ospf_core::database::{DatabaseRequestType, DatabaseResponse, InterfaceAddr, LinkStateDatabase};
use ospf_core::lsa::{Lsa, LsaHeader, LsaNetwork, LsaRouter, LsaRouterLink, LsaSum};
use ospf_core::route::{find_node, shortest_paths, Edge, Node, RouteEntry, RouteTable};
use ospf_core::spf::find_egress;

const R1: u32 = 0x01010101;
const R2: u32 = 0x02020202;
const R3: u32 = 0x03030303;
const NET: u32 = 0x0A000000;
const MASK: u32 = 0xFFFFFF00;
const FAR: u32 = u32::MAX;

fn header(ls_type: u8, id: u32, adv: u32) -> LsaHeader {
    LsaHeader {
        age: 0,
        options: 2,
        ls_type,
        link_state_id: id,
        advertising_router: adv,
        sequence_number: 1,
        checksum: 0,
        length: 0,
    }
}

fn link(link_id: u32, link_data: u32, link_type: u8, metric: u16) -> LsaRouterLink {
    LsaRouterLink { link_id, link_data, link_type, tos_num: 0, metric, tos_list: vec![] }
}

fn router(id: u32, links: Vec<LsaRouterLink>) -> Lsa {
    let mut lsa = Lsa::LsaRouter(LsaRouter {
        header: header(1, id, id),
        flags: 0,
        num_links: links.len() as u16,
        links,
    });
    lsa.set_checksum_length();
    lsa
}

fn network(id: u32, adv: u32, attached: Vec<u32>) -> Lsa {
    let mut lsa = Lsa::LsaNetwork(LsaNetwork {
        header: header(2, id, adv),
        network_mask: MASK,
        attached_routers: attached,
    });
    lsa.set_checksum_length();
    lsa
}

fn summary(id: u32, adv: u32, mask: u32, metric: u32) -> Lsa {
    let mut lsa = Lsa::LsaSumnet(LsaSum { header: header(3, id, adv), network_mask: mask, metric });
    lsa.set_checksum_length();
    lsa
}

fn database(ints: Vec<InterfaceAddr>, lsas: Vec<Lsa>) -> LinkStateDatabase {
    let mut db = LinkStateDatabase::from(Config { router_id: R1, ..Config::new() }, ints);
    for lsa in lsas {
        assert!(matches!(
            db.handle_request(DatabaseRequestType::AddOrUpdateLsa(lsa)),
            DatabaseResponse::UpdateDone
        ));
    }
    db
}

fn node(id: u32) -> Node {
    Node { id, mask: 0, dis: FAR }
}

fn edge(src: u32, dst: u32, dis: u32) -> (u32, Edge) {
    (src, Edge { dst, dis })
}

#[test]
fn shortest_paths_on_a_small_graph() {
    let nodes = vec![node(1), node(2), node(3), node(4), node(5)];
    let edges = vec![
        edge(1, 2, 7),
        edge(1, 3, 2),
        edge(3, 2, 3),
        edge(2, 4, 1),
        edge(3, 4, 8),
        edge(4, 1, 1),
        edge(9, 5, 1),
        edge(1, 9, 1),
    ];
    let (dis, prev) = shortest_paths(&nodes, &edges, 1);
    assert_eq!(dis, vec![0, 5, 2, 6, FAR]);
    assert_eq!(prev, vec![0, 3, 1, 2, 0]);
}

#[test]
fn without_the_source_nothing_is_reached() {
    let nodes = vec![node(1), node(2)];
    let edges = vec![edge(1, 2, 7)];
    let (dis, prev) = shortest_paths(&nodes, &edges, 3);
    assert_eq!(dis, vec![FAR, FAR]);
    assert_eq!(prev, vec![0, 0]);
    assert_eq!(shortest_paths(&vec![], &edges, 3), (vec![], vec![]));
}

#[test]
fn a_path_as_long_as_the_unreached_distance_does_not_reach() {
    let nodes = vec![node(1), node(2), node(3)];
    let edges = vec![edge(1, 2, FAR - 1), edge(2, 3, 1), edge(1, 3, FAR)];
    let (dis, _) = shortest_paths(&nodes, &edges, 1);
    assert_eq!(dis, vec![0, FAR - 1, FAR]);
}

#[test]
fn edges_of_weight_zero_are_followed() {
    let nodes = vec![node(1), node(2), node(3)];
    let edges = vec![edge(1, 2, 0), edge(2, 3, 0), edge(3, 1, 0)];
    let (dis, prev) = shortest_paths(&nodes, &edges, 1);
    assert_eq!(dis, vec![0, 0, 0]);
    assert_eq!(prev, vec![0, 1, 2]);
}

#[test]
fn nodes_are_found_by_their_id() {
    let nodes = vec![node(7), node(8), node(7)];
    assert_eq!(find_node(&nodes, 7), Some(0));
    assert_eq!(find_node(&nodes, 8), Some(1));
    assert_eq!(find_node(&nodes, 9), None);
}

#[test]
fn the_graph_table_puts_nodes_by_id_and_collects_edges() {
    let mut t = RouteTable::new();
    t.put_node(Node { id: 1, mask: 2, dis: 3 }, 4);
    t.put_node(Node { id: 5, mask: 6, dis: 7 }, 8);
    t.put_node(Node { id: 1, mask: 9, dis: 10 }, 11);
    assert_eq!(t.nodes, vec![Node { id: 1, mask: 9, dis: 10 }, Node { id: 5, mask: 6, dis: 7 }]);
    assert_eq!(t.prevs, vec![11, 8]);
    t.put_or_update_edge(1, 5, 3);
    t.put_or_update_edge(1, 5, 4);
    assert_eq!(t.edges, vec![edge(1, 5, 3), edge(1, 5, 4)]);
    t.entries.push(RouteEntry { dest_id: 1, mask: 2, next_hop: 3, metric: 4, int_addr: 5 });
    t.clear_graph();
    assert!(t.nodes.is_empty() && t.prevs.is_empty() && t.edges.is_empty());
    assert_eq!(t.entries.len(), 1);
}

#[test]
fn the_egress_is_the_first_interface_that_serves() {
    let ints = vec![
        InterfaceAddr { addr: 0x0A000001, mask: MASK },
        InterfaceAddr { addr: 0x0A000101, mask: MASK },
        InterfaceAddr { addr: 0x0A000201, mask: MASK },
    ];
    let dest = Node { id: 0x0A000100, mask: MASK, dis: 1 };
    assert_eq!(find_egress(&ints, &dest, 0x0A000100), Some(0x0A000101));
    let host = Node { id: R2, mask: 0xFFFFFFFF, dis: 1 };
    assert_eq!(find_egress(&ints, &host, 0x0A000202), Some(0x0A000201));
    assert_eq!(find_egress(&ints, &host, 0x0A000201), Some(0x0A000201));
    assert_eq!(find_egress(&ints, &host, 0x0B000001), None);
    assert_eq!(find_egress(&vec![], &dest, 0x0A000100), None);
}

#[test]
fn a_stub_network_of_this_router_is_reached_at_the_links_metric() {
    let db = database(
        vec![InterfaceAddr { addr: 0x0A000001, mask: MASK }],
        vec![router(R1, vec![link(NET, MASK, 3, 4)])],
    );
    assert_eq!(
        db.route_table.entries,
        vec![RouteEntry { dest_id: NET, mask: MASK, next_hop: NET, metric: 4, int_addr: 0x0A000001 }]
    );
    assert_eq!(db.route_table.nodes, vec![Node { id: R1, mask: 0, dis: 0 }, Node { id: NET, mask: MASK, dis: 4 }]);
    assert_eq!(db.route_table.edges, vec![edge(R1, NET, 4)]);
}

#[test]
fn two_routers_on_a_transit_network() {
    let lsas = vec![
        router(R1, vec![link(0x0A000001, 0x0A000001, 2, 1)]),
        router(R2, vec![link(0x0A000001, 0x0A000002, 2, 1), link(0x0A000100, MASK, 3, 5)]),
        network(0x0A000001, R1, vec![R1, R2]),
    ];
    let db = database(vec![InterfaceAddr { addr: 0x0A000001, mask: MASK }], lsas);
    assert_eq!(
        db.route_table.nodes,
        vec![
            Node { id: R1, mask: 0, dis: 0 },
            Node { id: R2, mask: 0, dis: 1 },
            Node { id: 0x0A000100, mask: MASK, dis: 6 },
            Node { id: NET, mask: MASK, dis: 0 },
        ]
    );
    assert_eq!(db.route_table.prevs, vec![0, R1, R2, R1]);
    assert_eq!(
        db.route_table.edges,
        vec![
            edge(R1, R2, 1),
            edge(R2, R1, 1),
            edge(R2, 0x0A000100, 5),
            edge(R1, NET, 0),
            edge(R2, NET, 0),
        ]
    );
    assert_eq!(
        db.route_table.entries,
        vec![RouteEntry { dest_id: NET, mask: MASK, next_hop: NET, metric: 0, int_addr: 0x0A000001 }]
    );
    for e in &db.route_table.entries {
        assert_ne!(e.next_hop, R1);
    }
}

#[test]
fn a_route_through_a_neighbor_has_the_neighbor_as_next_hop() {
    let lsas = vec![
        router(R1, vec![link(R2, 0x0A000001, 1, 3)]),
        router(R2, vec![link(R1, 0x0A000002, 1, 3), link(R3, 0x0A000102, 1, 4)]),
        router(R3, vec![link(R2, 0x0A000103, 1, 4), link(0x0A000200, MASK, 3, 2)]),
    ];
    let ints = vec![InterfaceAddr { addr: 0x02020201, mask: MASK }];
    let db = database(ints, lsas);
    assert_eq!(
        db.route_table.entries,
        vec![
            RouteEntry { dest_id: R2, mask: 0, next_hop: R2, metric: 3, int_addr: 0x02020201 },
            RouteEntry { dest_id: R3, mask: 0, next_hop: R2, metric: 7, int_addr: 0x02020201 },
            RouteEntry {
                dest_id: 0x0A000200,
                mask: MASK,
                next_hop: R2,
                metric: 9,
                int_addr: 0x02020201
            },
        ]
    );
}

#[test]
fn a_transit_link_without_its_network_lsa_adds_nothing() {
    let db = database(
        vec![InterfaceAddr { addr: 0x0A000001, mask: MASK }],
        vec![
            router(R1, vec![link(0x0A000001, 0x0A000001, 2, 1), link(9, 9, 4, 1), link(9, 9, 0, 1)]),
            router(R2, vec![link(0x0A000001, 0x0A000002, 2, 1)]),
        ],
    );
    assert!(db.route_table.edges.is_empty());
    assert!(db.route_table.entries.is_empty());
    assert_eq!(
        db.route_table.nodes,
        vec![Node { id: R1, mask: 0, dis: 0 }, Node { id: R2, mask: 0, dis: FAR }]
    );
}

#[test]
fn a_summary_of_a_reached_router_adds_its_destination() {
    let lsas = vec![
        router(R1, vec![link(R2, 0x0A000001, 1, 3)]),
        router(R2, vec![link(R1, 0x0A000002, 1, 3)]),
        summary(0xC0A80000, R2, 0xFFFF0000, 10),
        summary(0xC0A90000, R3, 0xFFFF0000, 10),
        summary(0xC0AA0000, R1, 0xFFFF0000, 10),
    ];
    let ints = vec![InterfaceAddr { addr: 0x02020201, mask: MASK }];
    let db = database(ints, lsas);
    assert_eq!(
        db.route_table.entries,
        vec![
            RouteEntry { dest_id: R2, mask: 0, next_hop: R2, metric: 3, int_addr: 0x02020201 },
            RouteEntry {
                dest_id: 0xC0A80000,
                mask: 0xFFFF0000,
                next_hop: R2,
                metric: 13,
                int_addr: 0x02020201
            },
        ]
    );
}

#[test]
fn without_this_routers_own_lsa_there_are_no_routes() {
    let db = database(
        vec![InterfaceAddr { addr: 0x0A000001, mask: MASK }],
        vec![router(R2, vec![link(NET, MASK, 3, 4)])],
    );
    assert!(db.route_table.entries.is_empty());
}

#[test]
fn a_destination_without_an_interface_to_it_gets_no_route() {
    let db = database(vec![], vec![router(R1, vec![link(NET, MASK, 3, 4)])]);
    assert!(db.route_table.entries.is_empty());
    assert_eq!(db.route_table.nodes.len(), 2);
}

#[test]
fn removing_an_lsa_takes_its_routes_away() {
    let own = router(R1, vec![link(NET, MASK, 3, 4)]);
    let h = *own.get_hdr();
    let mut db = database(vec![InterfaceAddr { addr: 0x0A000001, mask: MASK }], vec![own]);
    assert_eq!(db.route_table.entries.len(), 1);
    db.handle_request(DatabaseRequestType::RemoveLsa(h));
    assert!(db.route_table.entries.is_empty());
    assert!(db.route_table.nodes.is_empty());
}

#[test]
fn an_lsa_at_the_maximum_age_adds_nothing_to_the_routes() {
    let ints = vec![InterfaceAddr { addr: 0x0A000001, mask: MASK }];
    let own = router(R1, vec![link(NET, MASK, 3, 4), link(R2, 0x0A000001, 1, 2)]);
    let mut peer = router(R2, vec![link(0x0B000000, MASK, 3, 5)]);
    let db = database(ints.clone(), vec![own.clone(), peer.clone()]);
    assert_eq!(db.route_table.nodes.len(), 4);
    peer.get_mut_hdr().age = 3600;
    let db = database(ints.clone(), vec![own.clone(), peer.clone()]);
    assert_eq!(db.lsa_list.len(), 2);
    assert_eq!(
        db.route_table.nodes,
        vec![
            Node { id: R1, mask: 0, dis: 0 },
            Node { id: NET, mask: MASK, dis: 4 },
        ]
    );
    assert_eq!(db.route_table.edges, vec![edge(R1, NET, 4), edge(R1, R2, 2)]);
    peer.get_mut_hdr().age = 3599;
    let db = database(ints, vec![own, peer]);
    assert_eq!(db.route_table.nodes.len(), 4);
}

#[test]
fn a_network_lsa_at_the_maximum_age_leaves_its_transit_links_without_effect() {
    let ints = vec![InterfaceAddr { addr: 0x0A000001, mask: MASK }];
    let own = router(R1, vec![link(0x0A000001, 0x0A000001, 2, 1)]);
    let mut net = network(0x0A000001, R1, vec![R1, R2]);
    let db = database(ints.clone(), vec![own.clone(), net.clone()]);
    assert_eq!(db.route_table.edges.len(), 3);
    net.get_mut_hdr().age = 3600;
    let db = database(ints, vec![own, net]);
    assert_eq!(db.route_table.nodes, vec![Node { id: R1, mask: 0, dis: 0 }]);
    assert!(db.route_table.edges.is_empty());
    assert!(db.route_table.entries.is_empty());
}
