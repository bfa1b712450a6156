use mesh_gateway::timestamp::{Timestamp, TimestampError};
use mesh_gateway::types::{LinkStateAdvertisement, PeerInfo, PeerStatus};
use mesh_gateway::wire::{
    lsa_from_wire, lsa_to_wire, peer_from_wire, peer_to_wire, status_from_name, status_name,
    WireError, WireLsa, WirePeerInfo,
};

fn sample_lsa(timestamp: Option<Timestamp>) -> LinkStateAdvertisement {
    LinkStateAdvertisement {
        node_id: "gateway-a".to_string(),
        neighbors: vec!["gateway-b".to_string(), "gateway-c".to_string()],
        sequence: 7,
        timestamp,
    }
}

#[test]
fn an_advertisement_is_written_field_by_field() {
    let wire = lsa_to_wire(&sample_lsa(Some(Timestamp::from_unix_seconds(1_546_300_800)))).unwrap();
    assert_eq!(wire.node_id, "gateway-a");
    assert_eq!(wire.neighbors, vec!["gateway-b", "gateway-c"]);
    assert_eq!(wire.sequence, 7);
    assert_eq!(wire.timestamp, Some("2019-01-01T00:00:00Z".to_string()));
}

#[test]
fn an_advertisement_without_timestamp_has_none_on_the_wire() {
    let wire = lsa_to_wire(&sample_lsa(None)).unwrap();
    assert_eq!(wire.timestamp, None);
    let back = lsa_from_wire(wire).unwrap();
    assert_eq!(back.timestamp, None);
    assert_eq!(back.sequence, 7);
}

#[test]
fn an_advertisement_survives_the_wire() {
    for timestamp in [
        None,
        Some(Timestamp::from_unix_seconds(0)),
        Some(Timestamp::from_unix_seconds(1_700_000_000)),
    ] {
        let lsa = sample_lsa(timestamp);
        let back = lsa_from_wire(lsa_to_wire(&lsa).unwrap()).unwrap();
        assert_eq!(back.node_id, lsa.node_id);
        assert_eq!(back.neighbors, lsa.neighbors);
        assert_eq!(back.sequence, lsa.sequence);
        assert_eq!(back.timestamp, lsa.timestamp);
    }
}

#[test]
fn an_advertisement_with_an_unwritable_timestamp_is_refused() {
    let lsa = sample_lsa(Some(Timestamp::from_unix_seconds(u64::MAX)));
    assert_eq!(lsa_to_wire(&lsa).err(), Some(TimestampError::OutOfRange));
}

#[test]
fn a_wire_advertisement_with_a_bad_timestamp_is_refused() {
    let wire = WireLsa {
        node_id: "a".to_string(),
        neighbors: vec![],
        sequence: 1,
        timestamp: Some("noon".to_string()),
    };
    assert_eq!(lsa_from_wire(wire).err(), Some(TimestampError::Malformed));
    let wire = WireLsa {
        node_id: "a".to_string(),
        neighbors: vec![],
        sequence: 1,
        timestamp: Some("1960-01-01T00:00:00Z".to_string()),
    };
    assert_eq!(lsa_from_wire(wire).err(), Some(TimestampError::BeforeEpoch));
}

#[test]
fn status_names_are_lower_case() {
    assert_eq!(status_name(PeerStatus::Connected), "connected");
    assert_eq!(status_name(PeerStatus::Disconnected), "disconnected");
    assert_eq!(status_name(PeerStatus::Unknown), "unknown");
}

#[test]
fn status_names_are_read_back() {
    assert_eq!(status_from_name("connected"), Some(PeerStatus::Connected));
    assert_eq!(status_from_name("disconnected"), Some(PeerStatus::Disconnected));
    assert_eq!(status_from_name("unknown"), Some(PeerStatus::Unknown));
    assert_eq!(status_from_name("Connected"), None);
    assert_eq!(status_from_name(""), None);
    assert_eq!(status_from_name("connected "), None);
}

#[test]
fn a_peer_survives_the_wire() {
    let peer = PeerInfo {
        node_id: "gateway-b".to_string(),
        address: "127.0.0.1:8002".to_string(),
        status: PeerStatus::Connected,
        last_seen: Some(Timestamp::from_unix_seconds(1_546_300_800)),
    };
    let wire = peer_to_wire(&peer).unwrap();
    assert_eq!(wire.node_id, "gateway-b");
    assert_eq!(wire.address, "127.0.0.1:8002");
    assert_eq!(wire.status, "connected");
    assert_eq!(wire.last_seen, Some("2019-01-01T00:00:00Z".to_string()));
    let back = peer_from_wire(wire).unwrap();
    assert_eq!(back.node_id, peer.node_id);
    assert_eq!(back.address, peer.address);
    assert_eq!(back.status, peer.status);
    assert_eq!(back.last_seen, peer.last_seen);
}

#[test]
fn a_wire_peer_with_an_unknown_status_is_refused() {
    let wire = WirePeerInfo {
        node_id: "b".to_string(),
        address: "x:1".to_string(),
        status: "asleep".to_string(),
        last_seen: None,
    };
    assert_eq!(peer_from_wire(wire).err(), Some(WireError::UnknownStatus));
}

#[test]
fn a_peer_with_a_bad_timestamp_is_refused() {
    let peer = PeerInfo {
        node_id: "b".to_string(),
        address: "x:1".to_string(),
        status: PeerStatus::Unknown,
        last_seen: Some(Timestamp::from_unix_seconds(u64::MAX)),
    };
    assert_eq!(
        peer_to_wire(&peer).err(),
        Some(WireError::Timestamp(TimestampError::OutOfRange))
    );
    let wire = WirePeerInfo {
        node_id: "b".to_string(),
        address: "x:1".to_string(),
        status: "unknown".to_string(),
        last_seen: Some("soon".to_string()),
    };
    assert_eq!(
        peer_from_wire(wire).err(),
        Some(WireError::Timestamp(TimestampError::Malformed))
    );
}
