use mesh_gateway::routing::RoutingTable;
use mesh_gateway::types::{LinkStateAdvertisement, PeerInfo, PeerStatus};

fn table_with(connected: &[&str], lsas: &[(&str, &[&str])]) -> RoutingTable {
    let mut table = RoutingTable::new();
    for id in connected {
        table.add_peer(PeerInfo {
            node_id: id.to_string(),
            address: format!("{}:1", id),
            status: PeerStatus::Connected,
            last_seen: None,
        });
    }
    for (origin, neighbors) in lsas {
        assert!(table.process_lsa(LinkStateAdvertisement {
            node_id: origin.to_string(),
            neighbors: neighbors.iter().map(|n| n.to_string()).collect(),
            sequence: 1,
            timestamp: None,
        }));
    }
    table
}

#[test]
fn route_to_self_is_empty() {
    let table = table_with(&["B"], &[]);
    assert_eq!(table.find_route_from("A", "A"), Some(vec![]));
    let empty = RoutingTable::new();
    assert_eq!(empty.find_route_from("A", "A"), Some(vec![]));
}

#[test]
fn route_to_a_connected_peer_is_one_hop() {
    let table = table_with(&["B"], &[]);
    assert_eq!(table.find_route_from("A", "B"), Some(vec!["B".to_string()]));
}

#[test]
fn route_over_a_line_of_three_nodes() {
    let table = table_with(&["B"], &[("B", &["A", "C"]), ("C", &["B"])]);
    assert_eq!(
        table.find_route_from("A", "C"),
        Some(vec!["B".to_string(), "C".to_string()])
    );
    assert_eq!(table.find_route_from("A", "B"), Some(vec!["B".to_string()]));
}

#[test]
fn no_route_to_an_unknown_node() {
    let table = table_with(&["B"], &[("B", &["A"])]);
    assert_eq!(table.find_route_from("A", "Z"), None);
    let empty = RoutingTable::new();
    assert_eq!(empty.find_route_from("A", "Z"), None);
}

#[test]
fn a_disconnected_peer_is_no_first_hop() {
    let mut table = table_with(&["B"], &[("B", &["C"])]);
    table.update_peer_status("B", PeerStatus::Disconnected);
    assert_eq!(table.find_route_from("A", "B"), None);
    assert_eq!(table.find_route_from("A", "C"), None);
}

#[test]
fn the_shorter_of_two_routes_is_taken() {
    let table = table_with(
        &["B", "C"],
        &[("B", &["D"]), ("D", &["E"]), ("E", &["Z"]), ("C", &["Z"])],
    );
    assert_eq!(
        table.find_route_from("A", "Z"),
        Some(vec!["C".to_string(), "Z".to_string()])
    );
}

#[test]
fn of_two_equally_near_parents_the_one_that_sorts_last_is_taken() {
    let table = table_with(&["B", "C"], &[("B", &["D"]), ("C", &["D"])]);
    assert_eq!(
        table.find_route_from("A", "D"),
        Some(vec!["C".to_string(), "D".to_string()])
    );
    let table = table_with(&["C", "B"], &[("C", &["D"]), ("B", &["D"])]);
    assert_eq!(
        table.find_route_from("A", "D"),
        Some(vec!["C".to_string(), "D".to_string()])
    );
}

#[test]
fn ties_are_broken_at_every_hop() {
    let table = table_with(
        &["b1", "b2"],
        &[
            ("b1", &["c1", "c2"]),
            ("b2", &["c1", "c2"]),
            ("c1", &["d"]),
            ("c2", &["d"]),
        ],
    );
    assert_eq!(
        table.find_route_from("a", "d"),
        Some(vec!["b2".to_string(), "c2".to_string(), "d".to_string()])
    );
}

#[test]
fn identifiers_are_ordered_byte_by_byte() {
    let table = table_with(&["node-10", "node-9"], &[("node-10", &["z"]), ("node-9", &["z"])]);
    assert_eq!(
        table.find_route_from("a", "z"),
        Some(vec!["node-9".to_string(), "z".to_string()])
    );
    let table = table_with(&["ab", "abc"], &[("ab", &["z"]), ("abc", &["z"])]);
    assert_eq!(
        table.find_route_from("a", "z"),
        Some(vec!["abc".to_string(), "z".to_string()])
    );
    let table = table_with(&["é", "z"], &[("é", &["t"]), ("z", &["t"])]);
    assert_eq!(
        table.find_route_from("a", "t"),
        Some(vec!["é".to_string(), "t".to_string()])
    );
}

#[test]
fn the_advertisement_of_the_source_adds_successors() {
    let table = table_with(&[], &[("A", &["B"]), ("B", &["C"])]);
    assert_eq!(
        table.find_route_from("A", "C"),
        Some(vec!["B".to_string(), "C".to_string()])
    );
    assert_eq!(table.find_route_from("X", "C"), None);
}

#[test]
fn cycles_do_not_trap_the_search() {
    let table = table_with(
        &["B"],
        &[("B", &["A", "C", "B"]), ("C", &["A", "B", "C", "D"]), ("D", &["C"])],
    );
    assert_eq!(
        table.find_route_from("A", "D"),
        Some(vec!["B".to_string(), "C".to_string(), "D".to_string()])
    );
    assert_eq!(table.find_route_from("A", "Q"), None);
}

#[test]
fn every_hop_of_a_route_is_an_edge_and_the_last_hop_is_the_destination() {
    let lsas: &[(&str, &[&str])] = &[
        ("B", &["D", "E"]),
        ("C", &["E"]),
        ("D", &["F"]),
        ("E", &["F", "G"]),
        ("F", &["H"]),
        ("G", &["H"]),
    ];
    let table = table_with(&["B", "C"], lsas);
    let has_edge = |from: &str, to: &str| {
        (from == "A" && (to == "B" || to == "C"))
            || lsas.iter().any(|(o, ns)| *o == from && ns.contains(&to))
    };
    for destination in ["B", "C", "D", "E", "F", "G", "H"] {
        let path = table.find_route_from("A", destination).unwrap();
        assert_eq!(path.last().unwrap(), destination);
        let mut from = "A".to_string();
        for hop in &path {
            assert!(has_edge(&from, hop));
            from = hop.clone();
        }
    }
    assert_eq!(
        table.find_route_from("A", "H"),
        Some(vec!["C".to_string(), "E".to_string(), "G".to_string(), "H".to_string()])
    );
}
