use mesh_gateway::config::{
    decimal_text, default_ca_cert_path, default_cert_path, default_key_path, GatewayConfig,
    PeerConfig,
};

fn config(node_id: &str, port: u16, cert: &str, key: &str, ca: &str) -> GatewayConfig {
    GatewayConfig {
        node_id: node_id.to_string(),
        listen_port: port,
        cert_path: cert.to_string(),
        key_path: key.to_string(),
        ca_cert_path: ca.to_string(),
        peers: vec![PeerConfig {
            node_id: "gateway-b".to_string(),
            address: "127.0.0.1:8002".to_string(),
        }],
    }
}

#[test]
fn the_default_paths_name_the_node() {
    assert_eq!(default_cert_path("gateway-a"), "certs/gateway-a.crt");
    assert_eq!(default_key_path("gateway-a"), "certs/gateway-a.key");
    assert_eq!(default_cert_path(""), "certs/.crt");
    assert_eq!(default_ca_cert_path(), "certs/ca.crt");
}

#[test]
fn the_listen_address_is_loopback_and_port() {
    let c = config("gateway-a", 8001, "c", "k", "ca");
    assert_eq!(c.listen_addr(), "127.0.0.1:8001");
    assert_eq!(config("a", 0, "c", "k", "ca").listen_addr(), "127.0.0.1:0");
    assert_eq!(config("a", 9, "c", "k", "ca").listen_addr(), "127.0.0.1:9");
    assert_eq!(config("a", 10, "c", "k", "ca").listen_addr(), "127.0.0.1:10");
    assert_eq!(config("a", 443, "c", "k", "ca").listen_addr(), "127.0.0.1:443");
    assert_eq!(
        config("a", 65535, "c", "k", "ca").listen_addr(),
        "127.0.0.1:65535"
    );
}

#[test]
fn numbers_are_written_in_decimal() {
    for n in [0u16, 1, 9, 10, 11, 99, 100, 101, 1000, 9999, 10000, 40404, 65535] {
        assert_eq!(decimal_text(n), format!("{}", n));
    }
}

#[test]
fn paths_that_were_not_given_become_the_nodes_own() {
    let settled = GatewayConfig::from_parts(
        "gateway-a".to_string(),
        8001,
        None,
        None,
        None,
        vec![PeerConfig {
            node_id: "gateway-b".to_string(),
            address: "127.0.0.1:8002".to_string(),
        }],
    );
    assert_eq!(settled.node_id, "gateway-a");
    assert_eq!(settled.listen_port, 8001);
    assert_eq!(settled.cert_path, "certs/gateway-a.crt");
    assert_eq!(settled.key_path, "certs/gateway-a.key");
    assert_eq!(settled.ca_cert_path, "certs/ca.crt");
    assert_eq!(settled.peers.len(), 1);
    assert_eq!(settled.peers[0].node_id, "gateway-b");
    assert_eq!(settled.peers[0].address, "127.0.0.1:8002");
}

#[test]
fn paths_that_were_given_stay() {
    let settled = GatewayConfig::from_parts(
        "gateway-a".to_string(),
        8001,
        Some("/etc/mesh/a.pem".to_string()),
        None,
        Some("/etc/ca.pem".to_string()),
        vec![],
    );
    assert_eq!(settled.cert_path, "/etc/mesh/a.pem");
    assert_eq!(settled.key_path, "certs/gateway-a.key");
    assert_eq!(settled.ca_cert_path, "/etc/ca.pem");
    assert!(settled.peers.is_empty());
    let settled = GatewayConfig::from_parts(
        "gateway-a".to_string(),
        8001,
        Some("certs/gateway.crt".to_string()),
        Some("my.key".to_string()),
        None,
        vec![],
    );
    assert_eq!(settled.cert_path, "certs/gateway.crt");
    assert_eq!(settled.key_path, "my.key");
    assert_eq!(settled.ca_cert_path, "certs/ca.crt");
}

#[test]
fn a_configuration_can_be_copied() {
    let first = config("gateway-a", 8001, "c", "k", "ca");
    let copy = first.clone();
    assert_eq!(copy.node_id, first.node_id);
    assert_eq!(copy.listen_port, first.listen_port);
    assert_eq!(copy.cert_path, first.cert_path);
    assert_eq!(copy.key_path, first.key_path);
    assert_eq!(copy.ca_cert_path, first.ca_cert_path);
    assert_eq!(copy.peers.len(), 1);
    assert_eq!(copy.peers[0].node_id, "gateway-b");
    assert_eq!(copy.peers[0].address, "127.0.0.1:8002");
}
