use mesh_gateway::routing::RoutingTable;
use mesh_gateway::server::{
    conclude_forward, health_url, lsa_url, message_url, probe_verdict, AppState, Dispatch,
    ForwardEvent, ProbeEvent, HEALTH_INTERVAL_SECONDS, HEALTH_TIMEOUT_SECONDS,
    HEALTH_WARM_UP_SECONDS, LSA_INTERVAL_SECONDS, LSA_WARM_UP_SECONDS,
};
use mesh_gateway::timestamp::Timestamp;
use mesh_gateway::types::{
    LinkStateAdvertisement, PeerInfo, PeerStatus, ReceiveMessageRequest, SendMessageRequest,
    SendMessageResponse,
};

fn ids(names: &[&str]) -> Vec<String> {
    names.iter().map(|n| n.to_string()).collect()
}

fn gateway(node_id: &str, connected: &[(&str, &str)], lsas: &[(&str, &[&str])]) -> AppState {
    let mut table = RoutingTable::new();
    for (id, address) in connected {
        table.add_peer(PeerInfo {
            node_id: id.to_string(),
            address: address.to_string(),
            status: PeerStatus::Connected,
            last_seen: None,
        });
    }
    for (origin, neighbors) in lsas {
        table.process_lsa(LinkStateAdvertisement {
            node_id: origin.to_string(),
            neighbors: ids(neighbors),
            sequence: 1,
            timestamp: None,
        });
    }
    AppState::started_at(
        node_id.to_string(),
        "127.0.0.1:8001".to_string(),
        Timestamp::from_unix_seconds(1000),
        table,
    )
}

fn line_a() -> AppState {
    gateway("A", &[("B", "127.0.0.1:8002")], &[("B", &["A", "C"]), ("C", &["B"])])
}

fn line_b() -> AppState {
    gateway(
        "B",
        &[("A", "127.0.0.1:8001"), ("C", "127.0.0.1:8003")],
        &[("A", &["B"]), ("C", &["B"])],
    )
}

fn line_c() -> AppState {
    gateway("C", &[("B", "127.0.0.1:8002")], &[("B", &["A", "C"]), ("A", &["B"])])
}

fn send(to: &str, content: &str) -> SendMessageRequest {
    SendMessageRequest { to: to.to_string(), content: content.to_string() }
}

fn relay(from: &str, to: &str, content: &str, route: &[&str]) -> ReceiveMessageRequest {
    ReceiveMessageRequest {
        from: from.to_string(),
        to: to.to_string(),
        content: content.to_string(),
        route: ids(route),
    }
}

fn respond(step: Dispatch) -> SendMessageResponse {
    match step {
        Dispatch::Respond(response) => response,
        Dispatch::Forward { .. } => panic!("the message was forwarded"),
    }
}

fn forward(step: Dispatch) -> (String, String, ReceiveMessageRequest) {
    match step {
        Dispatch::Forward { next_hop, url, request } => (next_hop, url, request),
        Dispatch::Respond(response) => panic!("the message was answered {}", response.status),
    }
}

fn answered(response: SendMessageResponse) -> ForwardEvent {
    ForwardEvent::Answered { status: 200, body: Some(response) }
}

#[test]
fn test_health_response() {
    let state = AppState::new(
        "test-node".to_string(),
        "127.0.0.1:8001".to_string(),
        RoutingTable::new(),
    );
    let response = state.health();
    assert_eq!(response.status, "healthy");
    assert_eq!(response.node_id, "test-node");
}

#[test]
fn test_peer_info() {
    let state = AppState::new(
        "test-node".to_string(),
        "127.0.0.1:8001".to_string(),
        RoutingTable::new(),
    );
    let response = state.peer_info("0.1.0");
    assert_eq!(response.node_id, "test-node");
    assert_eq!(response.listen_addr, "127.0.0.1:8001");
}

#[test]
fn uptime_counts_whole_seconds_since_the_start() {
    let state = line_a();
    assert_eq!(state.uptime_at(Timestamp::from_unix_seconds(1000)), 0);
    assert_eq!(state.uptime_at(Timestamp::from_unix_seconds(1075)), 75);
    assert_eq!(state.uptime_at(Timestamp::from_unix_seconds(999)), 0);
    let health = state.health_at(Timestamp::from_unix_seconds(4600));
    assert_eq!(health.status, "healthy");
    assert_eq!(health.node_id, "A");
    assert_eq!(health.uptime_seconds, 3600);
    assert!(state.uptime_seconds() > 1_000_000);
}

#[test]
fn peer_info_lists_all_peers_whatever_their_status() {
    let mut state = line_b();
    state.routing_table.update_peer_status("C", PeerStatus::Disconnected);
    let info = state.peer_info("1.2.3");
    assert_eq!(info.node_id, "B");
    assert_eq!(info.listen_addr, "127.0.0.1:8001");
    assert_eq!(info.peers, vec!["A", "C"]);
    assert_eq!(info.version, "1.2.3");
    let peers = state.peers().peers;
    assert_eq!(peers.len(), 2);
    assert_eq!(peers[0].node_id, "A");
    assert_eq!(peers[0].status, PeerStatus::Connected);
    assert_eq!(peers[1].node_id, "C");
    assert_eq!(peers[1].address, "127.0.0.1:8003");
    assert_eq!(peers[1].status, PeerStatus::Disconnected);
}

#[test]
fn urls_are_https_address_and_endpoint() {
    assert_eq!(message_url("127.0.0.1:8002"), "https://127.0.0.1:8002/message/receive");
    assert_eq!(lsa_url("127.0.0.1:8002"), "https://127.0.0.1:8002/topology/lsa");
    assert_eq!(health_url("gateway-b:443"), "https://gateway-b:443/health");
}

#[test]
fn the_timers_have_their_periods() {
    assert_eq!(LSA_WARM_UP_SECONDS, 5);
    assert_eq!(LSA_INTERVAL_SECONDS, 30);
    assert_eq!(HEALTH_WARM_UP_SECONDS, 10);
    assert_eq!(HEALTH_INTERVAL_SECONDS, 15);
    assert_eq!(HEALTH_TIMEOUT_SECONDS, 5);
}

#[test]
fn a_message_to_a_direct_peer_is_delivered_over_one_hop() {
    let a = line_a();
    let b = line_b();
    let (next_hop, url, request) = forward(a.begin_send(&send("B", "hi")));
    assert_eq!(next_hop, "B");
    assert_eq!(url, "https://127.0.0.1:8002/message/receive");
    assert_eq!(request.from, "A");
    assert_eq!(request.to, "B");
    assert_eq!(request.content, "hi");
    assert_eq!(request.route, vec!["A"]);
    let sent_route = request.route.clone();
    let at_b = respond(b.begin_receive(request));
    assert_eq!(at_b.status, "delivered");
    assert_eq!(at_b.route, vec!["A", "B"]);
    let at_a = conclude_forward(sent_route, answered(at_b));
    assert_eq!(at_a.status, "delivered");
    assert_eq!(at_a.route, vec!["A", "B"]);
}

#[test]
fn a_message_travels_over_several_hops() {
    let a = line_a();
    let b = line_b();
    let c = line_c();
    let (hop_a, _, from_a) = forward(a.begin_send(&send("C", "x")));
    assert_eq!(hop_a, "B");
    let route_a = from_a.route.clone();
    let (hop_b, url_b, from_b) = forward(b.begin_receive(from_a));
    assert_eq!(hop_b, "C");
    assert_eq!(url_b, "https://127.0.0.1:8003/message/receive");
    assert_eq!(from_b.from, "B");
    assert_eq!(from_b.to, "C");
    assert_eq!(from_b.content, "x");
    assert_eq!(from_b.route, vec!["A", "B"]);
    let route_b = from_b.route.clone();
    let at_c = respond(c.begin_receive(from_b));
    assert_eq!(at_c.status, "delivered");
    assert_eq!(at_c.route, vec!["A", "B", "C"]);
    let at_b = conclude_forward(route_b, answered(at_c));
    let at_a = conclude_forward(route_a, answered(at_b));
    assert_eq!(at_a.status, "delivered");
    assert_eq!(at_a.route, vec!["A", "B", "C"]);
}

#[test]
fn a_message_without_route_is_answered_no_route() {
    let a = gateway("A", &[("B", "127.0.0.1:8002")], &[]);
    let response = respond(a.begin_send(&send("Z", "?")));
    assert_eq!(response.status, "no_route");
    assert_eq!(response.route, vec!["A"]);
}

#[test]
fn a_message_to_the_gateway_itself_is_delivered_at_once() {
    let a = line_a();
    let response = respond(a.begin_send(&send("A", "note")));
    assert_eq!(response.status, "delivered");
    assert_eq!(response.route, vec!["A"]);
}

#[test]
fn a_first_hop_that_is_no_direct_peer_gives_no_route() {
    let a = gateway("A", &[], &[("A", &["B"]), ("B", &["C"])]);
    let response = respond(a.begin_send(&send("C", "x")));
    assert_eq!(response.status, "no_route");
    assert_eq!(response.route, vec!["A"]);
    let response = respond(a.begin_receive(relay("X", "C", "x", &["X"])));
    assert_eq!(response.status, "no_route");
    assert_eq!(response.route, vec!["X"]);
}

#[test]
fn a_message_that_comes_back_is_a_loop() {
    let b = line_b();
    let response = respond(b.begin_receive(relay("X", "Z", "x", &["A", "B", "A"])));
    assert_eq!(response.status, "loop_detected");
    assert_eq!(response.route, vec!["A", "B", "A"]);
    let response = respond(b.begin_receive(relay("A", "C", "x", &["B"])));
    assert_eq!(response.status, "loop_detected");
    assert_eq!(response.route, vec!["B"]);
}

#[test]
fn delivery_comes_before_loop_detection() {
    let b = line_b();
    let response = respond(b.begin_receive(relay("A", "B", "x", &["A", "B"])));
    assert_eq!(response.status, "delivered");
    assert_eq!(response.route, vec!["A", "B", "B"]);
}

#[test]
fn a_relayed_message_without_route_keeps_its_route() {
    let b = line_b();
    let response = respond(b.begin_receive(relay("A", "Z", "x", &["A"])));
    assert_eq!(response.status, "no_route");
    assert_eq!(response.route, vec!["A"]);
}

#[test]
fn a_forward_that_fails_is_answered_failed() {
    let failed = conclude_forward(ids(&["A"]), ForwardEvent::Unreachable);
    assert_eq!(failed.status, "failed");
    assert_eq!(failed.route, vec!["A"]);
    let body = SendMessageResponse { status: "delivered".to_string(), route: ids(&["A", "B"]) };
    let failed = conclude_forward(
        ids(&["A", "B"]),
        ForwardEvent::Answered { status: 500, body: Some(body) },
    );
    assert_eq!(failed.status, "failed");
    assert_eq!(failed.route, vec!["A", "B"]);
    let failed = conclude_forward(ids(&["A"]), ForwardEvent::Answered { status: 200, body: None });
    assert_eq!(failed.status, "failed");
    assert_eq!(failed.route, vec!["A"]);
    let failed = conclude_forward(ids(&["A"]), ForwardEvent::Answered { status: 300, body: None });
    assert_eq!(failed.status, "failed");
}

#[test]
fn the_answer_of_the_next_hop_is_passed_on_as_it_stands() {
    let body = SendMessageResponse { status: "no_route".to_string(), route: ids(&["A", "B"]) };
    let passed = conclude_forward(
        ids(&["A"]),
        ForwardEvent::Answered { status: 200, body: Some(body) },
    );
    assert_eq!(passed.status, "no_route");
    assert_eq!(passed.route, vec!["A", "B"]);
    let body = SendMessageResponse { status: "loop_detected".to_string(), route: ids(&["Q"]) };
    let passed = conclude_forward(
        ids(&["A"]),
        ForwardEvent::Answered { status: 299, body: Some(body) },
    );
    assert_eq!(passed.status, "loop_detected");
    assert_eq!(passed.route, vec!["Q"]);
}

#[test]
fn an_advertisement_is_accepted_once() {
    let mut b = gateway("B", &[("A", "127.0.0.1:8001"), ("C", "127.0.0.1:8003")], &[]);
    let lsa = |sequence: u64| LinkStateAdvertisement {
        node_id: "A".to_string(),
        neighbors: ids(&["B"]),
        sequence,
        timestamp: None,
    };
    let first = b.handle_lsa(&lsa(5));
    assert_eq!(first.response.status, "accepted");
    assert_eq!(first.response.message, "LSA from A accepted and flooded");
    assert_eq!(first.flood_to.len(), 1);
    assert_eq!(first.flood_to[0].node_id, "C");
    assert_eq!(first.flood_to[0].address, "127.0.0.1:8003");
    let second = b.handle_lsa(&lsa(5));
    assert_eq!(second.response.status, "ignored");
    assert_eq!(second.response.message, "LSA from A already known or outdated");
    assert!(second.flood_to.is_empty());
    let older = b.handle_lsa(&lsa(4));
    assert_eq!(older.response.status, "ignored");
    assert!(older.flood_to.is_empty());
    let newer = b.handle_lsa(&lsa(6));
    assert_eq!(newer.response.status, "accepted");
    assert_eq!(newer.flood_to.len(), 1);
    assert_eq!(b.routing_table.get_all_lsas()[0].sequence, 6);
}

#[test]
fn an_advertisement_is_passed_on_to_connected_peers_only() {
    let mut b = gateway(
        "B",
        &[("A", "a:1"), ("C", "c:1"), ("D", "d:1"), ("E", "e:1")],
        &[],
    );
    b.routing_table.update_peer_status("D", PeerStatus::Disconnected);
    let outcome = b.handle_lsa(&LinkStateAdvertisement {
        node_id: "Z".to_string(),
        neighbors: vec![],
        sequence: 1,
        timestamp: None,
    });
    assert_eq!(outcome.response.status, "accepted");
    let to: Vec<String> = outcome.flood_to.iter().map(|p| p.node_id.clone()).collect();
    assert_eq!(to, vec!["A", "C", "E"]);
}

#[test]
fn a_gateway_advertises_its_connected_peers() {
    let mut b = line_b();
    b.routing_table.update_peer_status("C", PeerStatus::Disconnected);
    let first = b.originate_lsa_at(Timestamp::from_unix_seconds(50)).unwrap();
    assert_eq!(first.lsa.node_id, "B");
    assert_eq!(first.lsa.sequence, 1);
    assert_eq!(first.lsa.neighbors, vec!["A"]);
    assert_eq!(first.lsa.timestamp, Some(Timestamp::from_unix_seconds(50)));
    assert_eq!(first.targets.len(), 1);
    assert_eq!(first.targets[0].node_id, "A");
    assert_eq!(first.targets[0].address, "127.0.0.1:8001");
    let second = b.originate_lsa().unwrap();
    assert_eq!(second.lsa.sequence, 2);
    assert!(second.lsa.timestamp.is_some());
}

#[test]
fn a_probe_outcome_decides_the_status() {
    assert_eq!(probe_verdict(ProbeEvent::Answered { status: 200 }), PeerStatus::Connected);
    assert_eq!(probe_verdict(ProbeEvent::Answered { status: 299 }), PeerStatus::Connected);
    assert_eq!(probe_verdict(ProbeEvent::Answered { status: 199 }), PeerStatus::Disconnected);
    assert_eq!(probe_verdict(ProbeEvent::Answered { status: 300 }), PeerStatus::Disconnected);
    assert_eq!(probe_verdict(ProbeEvent::Answered { status: 503 }), PeerStatus::Disconnected);
    assert_eq!(probe_verdict(ProbeEvent::Unreachable), PeerStatus::Disconnected);
    assert_eq!(probe_verdict(ProbeEvent::TimedOut), PeerStatus::Disconnected);
}

#[test]
fn a_peer_that_stops_and_restarts_flips_its_status() {
    let mut a = line_a();
    let recovered = a.record_probe("B", ProbeEvent::Unreachable);
    assert!(!recovered);
    assert_eq!(a.routing_table.get_peer("B").unwrap().status, PeerStatus::Disconnected);
    let lsa = a.originate_lsa().unwrap();
    assert!(lsa.lsa.neighbors.is_empty());
    assert!(lsa.targets.is_empty());
    let recovered = a.record_probe_at(
        "B",
        ProbeEvent::Answered { status: 200 },
        Timestamp::from_unix_seconds(2000),
    );
    assert!(recovered);
    let b = a.routing_table.get_peer("B").unwrap();
    assert_eq!(b.status, PeerStatus::Connected);
    assert_eq!(b.last_seen, Some(Timestamp::from_unix_seconds(2000)));
    let lsa = a.originate_lsa().unwrap();
    assert_eq!(lsa.lsa.neighbors, vec!["B"]);
    let again = a.record_probe("B", ProbeEvent::Answered { status: 204 });
    assert!(!again);
    let timed_out = a.record_probe("B", ProbeEvent::TimedOut);
    assert!(!timed_out);
    assert_eq!(a.routing_table.get_peer("B").unwrap().status, PeerStatus::Disconnected);
    let refused = a.record_probe("B", ProbeEvent::Answered { status: 500 });
    assert!(!refused);
    assert_eq!(a.routing_table.get_peer("B").unwrap().status, PeerStatus::Disconnected);
}

#[test]
fn a_probe_never_adds_or_removes_a_peer() {
    let mut a = line_a();
    let recovered = a.record_probe("Q", ProbeEvent::Answered { status: 200 });
    assert!(recovered);
    assert_eq!(a.routing_table.peer_count(), 1);
    assert!(a.routing_table.get_peer("Q").is_none());
    a.record_probe("B", ProbeEvent::Unreachable);
    assert_eq!(a.routing_table.peer_count(), 1);
    assert_eq!(a.routing_table.get_all_lsas().len(), 2);
}
