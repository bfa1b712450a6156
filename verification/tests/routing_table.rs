use mesh_gateway::config::PeerConfig;
use mesh_gateway::routing::RoutingTable;
use mesh_gateway::timestamp::Timestamp;
use mesh_gateway::types::{LinkStateAdvertisement, PeerInfo, PeerStatus};

fn peer(node_id: &str, address: &str, status: PeerStatus) -> PeerInfo {
    PeerInfo {
        node_id: node_id.to_string(),
        address: address.to_string(),
        status,
        last_seen: None,
    }
}

fn lsa(origin: &str, neighbors: &[&str], sequence: u64) -> LinkStateAdvertisement {
    LinkStateAdvertisement {
        node_id: origin.to_string(),
        neighbors: neighbors.iter().map(|n| n.to_string()).collect(),
        sequence,
        timestamp: None,
    }
}

#[test]
fn test_new_routing_table() {
    let table = RoutingTable::new();
    assert_eq!(table.peer_count(), 0);
}

#[test]
fn test_add_and_get_peer() {
    let mut table = RoutingTable::new();

    let peer = PeerInfo {
        node_id: "gateway-b".to_string(),
        address: "127.0.0.1:8002".to_string(),
        status: PeerStatus::Connected,
        last_seen: Some(Timestamp::now()),
    };

    table.add_peer(peer.clone());
    assert_eq!(table.peer_count(), 1);

    let retrieved = table.get_peer("gateway-b").unwrap();
    assert_eq!(retrieved.node_id, "gateway-b");
    assert_eq!(retrieved.address, "127.0.0.1:8002");
}

#[test]
fn test_from_config() {
    let peers = vec![
        PeerConfig {
            node_id: "gateway-b".to_string(),
            address: "127.0.0.1:8002".to_string(),
        },
        PeerConfig {
            node_id: "gateway-c".to_string(),
            address: "127.0.0.1:8003".to_string(),
        },
    ];

    let table = RoutingTable::from_config(peers);
    assert_eq!(table.peer_count(), 2);

    let peer_b = table.get_peer("gateway-b").unwrap();
    assert_eq!(peer_b.status, PeerStatus::Unknown);
}

#[test]
fn test_update_peer_status() {
    let mut table = RoutingTable::new();

    let peer = PeerInfo {
        node_id: "gateway-b".to_string(),
        address: "127.0.0.1:8002".to_string(),
        status: PeerStatus::Unknown,
        last_seen: None,
    };

    table.add_peer(peer);
    table.update_peer_status("gateway-b", PeerStatus::Connected);

    let updated = table.get_peer("gateway-b").unwrap();
    assert_eq!(updated.status, PeerStatus::Connected);
    assert!(updated.last_seen.is_some());
}

#[test]
fn test_get_connected_peers() {
    let mut table = RoutingTable::new();

    table.add_peer(PeerInfo {
        node_id: "gateway-b".to_string(),
        address: "127.0.0.1:8002".to_string(),
        status: PeerStatus::Connected,
        last_seen: Some(Timestamp::now()),
    });

    table.add_peer(PeerInfo {
        node_id: "gateway-c".to_string(),
        address: "127.0.0.1:8003".to_string(),
        status: PeerStatus::Disconnected,
        last_seen: None,
    });

    let connected = table.get_connected_peers();
    assert_eq!(connected.len(), 1);
    assert_eq!(connected[0].node_id, "gateway-b");
}

#[test]
fn test_find_direct_route() {
    let mut table = RoutingTable::new();

    table.add_peer(PeerInfo {
        node_id: "gateway-b".to_string(),
        address: "127.0.0.1:8002".to_string(),
        status: PeerStatus::Connected,
        last_seen: Some(Timestamp::now()),
    });

    let route = table.find_route("gateway-b");
    assert!(route.is_some());
    assert_eq!(route.unwrap(), vec!["gateway-b"]);

    let no_route = table.find_route("gateway-unknown");
    assert!(no_route.is_none());
}

#[test]
fn test_remove_peer() {
    let mut table = RoutingTable::new();

    table.add_peer(PeerInfo {
        node_id: "gateway-b".to_string(),
        address: "127.0.0.1:8002".to_string(),
        status: PeerStatus::Connected,
        last_seen: Some(Timestamp::now()),
    });

    assert_eq!(table.peer_count(), 1);

    let removed = table.remove_peer("gateway-b");
    assert!(removed.is_some());
    assert_eq!(table.peer_count(), 0);
}

#[test]
fn add_peer_replaces_a_peer_of_the_same_identifier_in_place() {
    let mut table = RoutingTable::new();
    table.add_peer(peer("b", "127.0.0.1:1", PeerStatus::Unknown));
    table.add_peer(peer("c", "127.0.0.1:2", PeerStatus::Unknown));
    table.add_peer(peer("b", "127.0.0.1:9", PeerStatus::Connected));
    let all = table.get_all_peers();
    assert_eq!(all.len(), 2);
    assert_eq!(all[0].node_id, "b");
    assert_eq!(all[0].address, "127.0.0.1:9");
    assert_eq!(all[0].status, PeerStatus::Connected);
    assert_eq!(all[1].node_id, "c");
}

#[test]
fn from_config_lets_a_later_entry_replace_an_earlier_one() {
    let table = RoutingTable::from_config(vec![
        PeerConfig { node_id: "b".to_string(), address: "old:1".to_string() },
        PeerConfig { node_id: "c".to_string(), address: "c:1".to_string() },
        PeerConfig { node_id: "b".to_string(), address: "new:1".to_string() },
    ]);
    assert_eq!(table.peer_count(), 2);
    let b = table.get_peer("b").unwrap();
    assert_eq!(b.address, "new:1");
    assert_eq!(b.status, PeerStatus::Unknown);
    assert!(b.last_seen.is_none());
}

#[test]
fn remove_peer_of_an_unknown_identifier_changes_nothing() {
    let mut table = RoutingTable::new();
    table.add_peer(peer("b", "127.0.0.1:1", PeerStatus::Unknown));
    assert!(table.remove_peer("z").is_none());
    assert_eq!(table.peer_count(), 1);
    let removed = table.remove_peer("b").unwrap();
    assert_eq!(removed.address, "127.0.0.1:1");
    assert!(table.get_peer("b").is_none());
}

#[test]
fn update_peer_status_stamps_only_a_peer_that_becomes_connected() {
    let mut table = RoutingTable::new();
    table.add_peer(peer("b", "127.0.0.1:1", PeerStatus::Unknown));
    table.update_peer_status_at("b", PeerStatus::Disconnected, Timestamp::from_unix_seconds(10));
    let b = table.get_peer("b").unwrap();
    assert_eq!(b.status, PeerStatus::Disconnected);
    assert_eq!(b.last_seen, None);
    table.update_peer_status_at("b", PeerStatus::Connected, Timestamp::from_unix_seconds(20));
    let b = table.get_peer("b").unwrap();
    assert_eq!(b.status, PeerStatus::Connected);
    assert_eq!(b.last_seen, Some(Timestamp::from_unix_seconds(20)));
    table.update_peer_status_at("b", PeerStatus::Disconnected, Timestamp::from_unix_seconds(30));
    let b = table.get_peer("b").unwrap();
    assert_eq!(b.status, PeerStatus::Disconnected);
    assert_eq!(b.last_seen, Some(Timestamp::from_unix_seconds(20)));
}

#[test]
fn update_peer_status_of_an_unknown_peer_changes_nothing() {
    let mut table = RoutingTable::new();
    table.add_peer(peer("b", "127.0.0.1:1", PeerStatus::Unknown));
    table.update_peer_status("z", PeerStatus::Connected);
    assert_eq!(table.peer_count(), 1);
    assert_eq!(table.get_peer("b").unwrap().status, PeerStatus::Unknown);
    assert!(table.get_peer("z").is_none());
}

#[test]
fn mark_peer_seen_stamps_the_peer_and_keeps_its_status() {
    let mut table = RoutingTable::new();
    table.add_peer(peer("b", "127.0.0.1:1", PeerStatus::Disconnected));
    table.mark_peer_seen_at("b", Timestamp::from_unix_seconds(77));
    let b = table.get_peer("b").unwrap();
    assert_eq!(b.status, PeerStatus::Disconnected);
    assert_eq!(b.last_seen, Some(Timestamp::from_unix_seconds(77)));
    table.mark_peer_seen("b");
    assert!(table.get_peer("b").unwrap().last_seen.is_some());
    table.mark_peer_seen("z");
    assert_eq!(table.peer_count(), 1);
}

#[test]
fn mark_all_connected_connects_and_stamps_every_peer() {
    let mut table = RoutingTable::new();
    table.add_peer(peer("b", "127.0.0.1:1", PeerStatus::Disconnected));
    table.add_peer(peer("c", "127.0.0.1:2", PeerStatus::Unknown));
    table.mark_all_connected_at(Timestamp::from_unix_seconds(5));
    for p in table.get_all_peers() {
        assert_eq!(p.status, PeerStatus::Connected);
        assert_eq!(p.last_seen, Some(Timestamp::from_unix_seconds(5)));
    }
    assert_eq!(table.get_connected_peers().len(), 2);
    let mut other = RoutingTable::new();
    other.add_peer(peer("b", "127.0.0.1:1", PeerStatus::Unknown));
    other.mark_all_connected();
    assert_eq!(other.get_peer("b").unwrap().status, PeerStatus::Connected);
}

#[test]
fn generate_lsa_counts_up_and_lists_only_connected_peers() {
    let mut table = RoutingTable::new();
    table.add_peer(peer("b", "127.0.0.1:1", PeerStatus::Connected));
    table.add_peer(peer("c", "127.0.0.1:2", PeerStatus::Disconnected));
    table.add_peer(peer("d", "127.0.0.1:3", PeerStatus::Unknown));
    table.add_peer(peer("e", "127.0.0.1:4", PeerStatus::Connected));
    assert_eq!(table.own_sequence(), 0);
    let first = table.generate_lsa_at("a", Timestamp::from_unix_seconds(100));
    assert_eq!(first.node_id, "a");
    assert_eq!(first.sequence, 1);
    assert_eq!(first.neighbors, vec!["b", "e"]);
    assert_eq!(first.timestamp, Some(Timestamp::from_unix_seconds(100)));
    table.update_peer_status("b", PeerStatus::Disconnected);
    let second = table.generate_lsa("a");
    assert_eq!(second.sequence, 2);
    assert_eq!(second.neighbors, vec!["e"]);
    assert!(second.timestamp.is_some());
    let third = table.generate_lsa("a");
    assert!(third.sequence > second.sequence);
    assert_eq!(table.own_sequence(), 3);
}

#[test]
fn process_lsa_accepts_only_a_strictly_newer_advertisement() {
    let mut table = RoutingTable::new();
    assert!(table.process_lsa(lsa("a", &["b"], 5)));
    assert!(!table.process_lsa(lsa("a", &["c"], 5)));
    assert!(!table.process_lsa(lsa("a", &["c"], 4)));
    let held = table.get_all_lsas();
    assert_eq!(held.len(), 1);
    assert_eq!(held[0].sequence, 5);
    assert_eq!(held[0].neighbors, vec!["b"]);
    assert!(table.process_lsa(lsa("a", &["d"], 6)));
    let held = table.get_all_lsas();
    assert_eq!(held.len(), 1);
    assert_eq!(held[0].sequence, 6);
    assert_eq!(held[0].neighbors, vec!["d"]);
}

#[test]
fn process_lsa_keeps_the_highest_sequence_of_each_origin() {
    let mut table = RoutingTable::new();
    let offers = [("a", 3u64), ("b", 9), ("a", 7), ("b", 2), ("a", 7), ("a", 1), ("b", 10)];
    for (origin, sequence) in offers {
        table.add_peer(peer("x", "127.0.0.1:1", PeerStatus::Connected));
        table.process_lsa(lsa(origin, &[], sequence));
        table.update_peer_status("x", PeerStatus::Disconnected);
    }
    let held = table.get_all_lsas();
    assert_eq!(held.len(), 2);
    assert_eq!(held[0].node_id, "a");
    assert_eq!(held[0].sequence, 7);
    assert_eq!(held[1].node_id, "b");
    assert_eq!(held[1].sequence, 10);
}

#[test]
fn process_lsa_accepts_sequence_zero_from_a_new_origin() {
    let mut table = RoutingTable::new();
    assert!(table.process_lsa(lsa("a", &[], 0)));
    assert!(!table.process_lsa(lsa("a", &[], 0)));
    assert!(table.process_lsa(lsa("a", &[], u64::MAX)));
    assert!(!table.process_lsa(lsa("a", &[], u64::MAX)));
}

#[test]
fn find_route_ignores_a_peer_that_is_not_connected() {
    let mut table = RoutingTable::new();
    table.add_peer(peer("b", "127.0.0.1:1", PeerStatus::Disconnected));
    table.add_peer(peer("c", "127.0.0.1:2", PeerStatus::Unknown));
    assert!(table.find_route("b").is_none());
    assert!(table.find_route("c").is_none());
    table.process_lsa(lsa("a", &["b"], 1));
    assert!(table.find_route("b").is_none());
}

#[test]
fn a_default_table_is_empty() {
    let table = RoutingTable::default();
    table.note_well_formed();
    assert_eq!(table.peer_count(), 0);
    assert!(table.get_all_peers().is_empty());
    assert!(table.get_all_lsas().is_empty());
    assert_eq!(table.own_sequence(), 0);
}

#[test]
fn status_updates_keep_the_peers_and_their_order() {
    let mut table = RoutingTable::new();
    table.add_peer(peer("d", "127.0.0.1:4", PeerStatus::Unknown));
    table.add_peer(peer("b", "127.0.0.1:2", PeerStatus::Unknown));
    table.add_peer(peer("c", "127.0.0.1:3", PeerStatus::Unknown));
    table.update_peer_status("b", PeerStatus::Connected);
    table.mark_peer_seen("c");
    table.mark_all_connected();
    table.update_peer_status("d", PeerStatus::Disconnected);
    table.process_lsa(lsa("z", &["b"], 1));
    table.generate_lsa("a");
    let ids: Vec<String> = table.get_all_peers().iter().map(|p| p.node_id.clone()).collect();
    assert_eq!(ids, vec!["d", "b", "c"]);
    let connected: Vec<String> =
        table.get_connected_peers().iter().map(|p| p.node_id.clone()).collect();
    assert_eq!(connected, vec!["b", "c"]);
}
