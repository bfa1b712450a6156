//! Configuration of a gateway node.
//!
//! A configuration names the node, the port it listens on, the files that
//! hold its certificate, its private key and the certificate of the
//! common authority, and its peers. Reading the configuration file is left
//! to the caller; what a path defaults to where the file gives none is
//! decided here.

use vstd::prelude::*;
use vstd::string::*;

verus! {

/// Configuration of one peer gateway.
#[derive(Debug)]
pub struct PeerConfig {
    /// Node identifier of the peer.
    pub node_id: String,
    /// Address of the peer, `host:port` without a scheme.
    pub address: String,
}

/// The model of a `PeerConfig`.
pub struct PeerConfigView {
    pub node_id: Seq<char>,
    pub address: Seq<char>,
}

impl View for PeerConfig {
    type V = PeerConfigView;

    open spec fn view(&self) -> PeerConfigView {
        PeerConfigView { node_id: self.node_id@, address: self.address@ }
    }
}

impl Clone for PeerConfig {
    fn clone(&self) -> (copy: Self)
        ensures
            copy@ == self@,
    {
        PeerConfig { node_id: self.node_id.clone(), address: self.address.clone() }
    }
}

/// The models of the peer configurations of `peers`, in order.
pub open spec fn peer_configs_view(peers: Seq<PeerConfig>) -> Seq<PeerConfigView> {
    Seq::new(peers.len(), |i: int| peers[i]@)
}

/// Configuration of a gateway node.
#[derive(Debug)]
pub struct GatewayConfig {
    /// Unique identifier of this gateway.
    pub node_id: String,
    /// Port to listen on.
    pub listen_port: u16,
    /// Path of the certificate file.
    pub cert_path: String,
    /// Path of the private key file.
    pub key_path: String,
    /// Path of the certificate of the common authority.
    pub ca_cert_path: String,
    /// The peer gateways.
    pub peers: Vec<PeerConfig>,
}

/// The model of a `GatewayConfig`.
pub struct GatewayConfigView {
    pub node_id: Seq<char>,
    pub listen_port: u16,
    pub cert_path: Seq<char>,
    pub key_path: Seq<char>,
    pub ca_cert_path: Seq<char>,
    pub peers: Seq<PeerConfigView>,
}

impl View for GatewayConfig {
    type V = GatewayConfigView;

    open spec fn view(&self) -> GatewayConfigView {
        GatewayConfigView {
            node_id: self.node_id@,
            listen_port: self.listen_port,
            cert_path: self.cert_path@,
            key_path: self.key_path@,
            ca_cert_path: self.ca_cert_path@,
            peers: peer_configs_view(self.peers@),
        }
    }
}

impl Clone for GatewayConfig {
    fn clone(&self) -> (copy: Self)
        ensures
            copy@ == self@,
    {
        let mut peers: Vec<PeerConfig> = Vec::new();
        let mut i: usize = 0;
        while i < self.peers.len()
            invariant
                i <= self.peers.len(),
                peers.len() == i,
                forall|j: int| 0 <= j < i ==> (#[trigger] peers@[j])@ == self.peers@[j]@,
            decreases self.peers.len() - i,
        {
            peers.push(self.peers[i].clone());
            i += 1;
        }
        assert(peer_configs_view(peers@) =~= peer_configs_view(self.peers@));
        GatewayConfig {
            node_id: self.node_id.clone(),
            listen_port: self.listen_port,
            cert_path: self.cert_path.clone(),
            key_path: self.key_path.clone(),
            ca_cert_path: self.ca_cert_path.clone(),
            peers,
        }
    }
}

/// The path of a file of node `node_id` in the directory `certs`.
pub open spec fn spec_node_path(node_id: Seq<char>, extension: Seq<char>) -> Seq<char> {
    "certs/"@ + node_id + extension
}

fn node_path(node_id: &str, extension: &str) -> (path: String)
    ensures
        path@ == spec_node_path(node_id@, extension@),
{
    let mut path = String::from_str("certs/");
    path.append(node_id);
    path.append(extension);
    path
}

/// The certificate path of node `node_id` where none is given:
/// `certs/<node_id>.crt`.
pub fn default_cert_path(node_id: &str) -> (path: String)
    ensures
        path@ == spec_node_path(node_id@, ".crt"@),
{
    node_path(node_id, ".crt")
}

/// The key path of node `node_id` where none is given:
/// `certs/<node_id>.key`.
pub fn default_key_path(node_id: &str) -> (path: String)
    ensures
        path@ == spec_node_path(node_id@, ".key"@),
{
    node_path(node_id, ".key")
}

/// The path of the authority's certificate where none is given:
/// `certs/ca.crt`.
pub fn default_ca_cert_path() -> (path: String)
    ensures
        path@ == "certs/ca.crt"@,
{
    "certs/ca.crt".to_string()
}

/// The decimal digit for `d`, a number below ten.
pub open spec fn digit(d: nat) -> char {
    if d == 0 {
        '0'
    } else if d == 1 {
        '1'
    } else if d == 2 {
        '2'
    } else if d == 3 {
        '3'
    } else if d == 4 {
        '4'
    } else if d == 5 {
        '5'
    } else if d == 6 {
        '6'
    } else if d == 7 {
        '7'
    } else if d == 8 {
        '8'
    } else {
        '9'
    }
}

/// The decimal numeral of `n`, without leading zeros.
pub open spec fn decimal(n: nat) -> Seq<char>
    decreases n,
{
    if n < 10 {
        seq![digit(n)]
    } else {
        decimal(n / 10).push(digit(n % 10))
    }
}

fn digit_text(d: u16) -> (text: &'static str)
    requires
        d < 10,
    ensures
        text@ == seq![digit(d as nat)],
{
    proof {
        reveal_strlit("0");
        reveal_strlit("1");
        reveal_strlit("2");
        reveal_strlit("3");
        reveal_strlit("4");
        reveal_strlit("5");
        reveal_strlit("6");
        reveal_strlit("7");
        reveal_strlit("8");
        reveal_strlit("9");
    }
    let text = if d == 0 {
        "0"
    } else if d == 1 {
        "1"
    } else if d == 2 {
        "2"
    } else if d == 3 {
        "3"
    } else if d == 4 {
        "4"
    } else if d == 5 {
        "5"
    } else if d == 6 {
        "6"
    } else if d == 7 {
        "7"
    } else if d == 8 {
        "8"
    } else {
        "9"
    };
    assert(text@ =~= seq![digit(d as nat)]);
    text
}

/// The decimal numeral of `n`.
pub fn decimal_text(n: u16) -> (text: String)
    ensures
        text@ == decimal(n as nat),
    decreases n,
{
    if n < 10 {
        digit_text(n).to_string()
    } else {
        let mut text = decimal_text(n / 10);
        let ghost front = text@;
        let last = digit_text(n % 10);
        text.append(last);
        assert(text@ =~= front.push(digit((n % 10) as nat)));
        text
    }
}

/// The model of an optional path.
pub open spec fn path_view(path: Option<String>) -> Option<Seq<char>> {
    match path {
        Some(p) => Some(p@),
        None => None,
    }
}

/// The path to use: the given one, or `fallback` where none is given.
pub open spec fn path_or(given: Option<Seq<char>>, fallback: Seq<char>) -> Seq<char> {
    match given {
        Some(path) => path,
        None => fallback,
    }
}

impl GatewayConfigView {
    /// The address that the gateway listens on.
    pub open spec fn listen_addr(self) -> Seq<char> {
        "127.0.0.1:"@ + decimal(self.listen_port as nat)
    }
}

impl GatewayConfig {
    /// The address that the gateway listens on: the loopback address and
    /// the configured port.
    pub fn listen_addr(&self) -> (addr: String)
        ensures
            addr@ == self@.listen_addr(),
    {
        let mut addr = String::from_str("127.0.0.1:");
        let port = decimal_text(self.listen_port);
        addr.append(port.as_str());
        addr
    }

    /// The configuration that a configuration file gives.
    ///
    /// A path that the file does not give defaults to
    /// `certs/<node_id>.crt` for the certificate, `certs/<node_id>.key`
    /// for the private key and `certs/ca.crt` for the certificate of the
    /// common authority. Everything else is taken as it is.
    pub fn from_parts(
        node_id: String,
        listen_port: u16,
        cert_path: Option<String>,
        key_path: Option<String>,
        ca_cert_path: Option<String>,
        peers: Vec<PeerConfig>,
    ) -> (config: GatewayConfig)
        ensures
            config@ == (GatewayConfigView {
                node_id: node_id@,
                listen_port,
                cert_path: path_or(path_view(cert_path), spec_node_path(node_id@, ".crt"@)),
                key_path: path_or(path_view(key_path), spec_node_path(node_id@, ".key"@)),
                ca_cert_path: path_or(path_view(ca_cert_path), "certs/ca.crt"@),
                peers: peer_configs_view(peers@),
            }),
    {
        let cert_path = match cert_path {
            Some(path) => path,
            None => default_cert_path(node_id.as_str()),
        };
        let key_path = match key_path {
            Some(path) => path,
            None => default_key_path(node_id.as_str()),
        };
        let ca_cert_path = match ca_cert_path {
            Some(path) => path,
            None => default_ca_cert_path(),
        };
        GatewayConfig { node_id, listen_port, cert_path, key_path, ca_cert_path, peers }
    }
}

} // verus!
