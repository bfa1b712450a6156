//! The records that gateways keep and exchange.
//!
//! Each record has a view, its mathematical model: strings become
//! sequences of characters and vectors become sequences. Contracts
//! throughout the crate speak of views.

use crate::node_id::NodeIdView;
use crate::timestamp::Timestamp;
use vstd::prelude::*;

verus! {

/// The models of the strings of `texts`, in order.
pub open spec fn texts_view(texts: Seq<String>) -> Seq<Seq<char>> {
    Seq::new(texts.len(), |i: int| texts[i]@)
}

/// Status of the connection to a peer.
#[derive(Debug, Clone, Copy, PartialEq, Eq, Structural)]
pub enum PeerStatus {
    Connected,
    Disconnected,
    Unknown,
}

/// What a gateway knows about one of its direct peers.
#[derive(Debug)]
pub struct PeerInfo {
    pub node_id: String,
    /// Transport address, `host:port` without a scheme.
    pub address: String,
    pub status: PeerStatus,
    pub last_seen: Option<Timestamp>,
}

/// The model of a `PeerInfo`.
pub struct PeerInfoView {
    pub node_id: NodeIdView,
    pub address: Seq<char>,
    pub status: PeerStatus,
    pub last_seen: Option<Timestamp>,
}

impl View for PeerInfo {
    type V = PeerInfoView;

    open spec fn view(&self) -> PeerInfoView {
        PeerInfoView {
            node_id: self.node_id@,
            address: self.address@,
            status: self.status,
            last_seen: self.last_seen,
        }
    }
}

impl Clone for PeerInfo {
    fn clone(&self) -> (copy: Self)
        ensures
            copy@ == self@,
    {
        PeerInfo {
            node_id: self.node_id.clone(),
            address: self.address.clone(),
            status: self.status,
            last_seen: self.last_seen,
        }
    }
}

/// The models of the peers of `peers`, in order.
pub open spec fn peers_view(peers: Seq<PeerInfo>) -> Seq<PeerInfoView> {
    Seq::new(peers.len(), |i: int| peers[i]@)
}

/// Request from a user to send a message to another gateway.
#[derive(Debug)]
pub struct SendMessageRequest {
    pub to: String,
    pub content: String,
}

/// The model of a `SendMessageRequest`.
pub struct SendMessageRequestView {
    pub to: NodeIdView,
    pub content: Seq<char>,
}

impl View for SendMessageRequest {
    type V = SendMessageRequestView;

    open spec fn view(&self) -> SendMessageRequestView {
        SendMessageRequestView { to: self.to@, content: self.content@ }
    }
}

/// A message relayed from one gateway to the next, with the route it has
/// taken so far.
#[derive(Debug)]
pub struct ReceiveMessageRequest {
    pub from: String,
    pub to: String,
    pub content: String,
    pub route: Vec<String>,
}

/// The model of a `ReceiveMessageRequest`.
pub struct ReceiveMessageRequestView {
    pub from: NodeIdView,
    pub to: NodeIdView,
    pub content: Seq<char>,
    pub route: Seq<NodeIdView>,
}

impl View for ReceiveMessageRequest {
    type V = ReceiveMessageRequestView;

    open spec fn view(&self) -> ReceiveMessageRequestView {
        ReceiveMessageRequestView {
            from: self.from@,
            to: self.to@,
            content: self.content@,
            route: texts_view(self.route@),
        }
    }
}

/// Outcome of sending or relaying a message.
#[derive(Debug)]
pub struct SendMessageResponse {
    /// One of `delivered`, `no_route`, `loop_detected`, `failed`.
    pub status: String,
    pub route: Vec<String>,
}

/// The model of a `SendMessageResponse`.
pub struct SendMessageResponseView {
    pub status: Seq<char>,
    pub route: Seq<NodeIdView>,
}

impl View for SendMessageResponse {
    type V = SendMessageResponseView;

    open spec fn view(&self) -> SendMessageResponseView {
        SendMessageResponseView { status: self.status@, route: texts_view(self.route@) }
    }
}

/// Information about this gateway node.
#[derive(Debug)]
pub struct NodeInfo {
    pub node_id: String,
    pub listen_addr: String,
    pub peers: Vec<String>,
    pub version: String,
}

/// The model of a `NodeInfo`.
pub struct NodeInfoView {
    pub node_id: NodeIdView,
    pub listen_addr: Seq<char>,
    pub peers: Seq<NodeIdView>,
    pub version: Seq<char>,
}

impl View for NodeInfo {
    type V = NodeInfoView;

    open spec fn view(&self) -> NodeInfoView {
        NodeInfoView {
            node_id: self.node_id@,
            listen_addr: self.listen_addr@,
            peers: texts_view(self.peers@),
            version: self.version@,
        }
    }
}

/// The direct peers of a gateway.
#[derive(Debug)]
pub struct PeersResponse {
    pub peers: Vec<PeerInfo>,
}

impl View for PeersResponse {
    type V = Seq<PeerInfoView>;

    open spec fn view(&self) -> Seq<PeerInfoView> {
        peers_view(self.peers@)
    }
}

/// Answer to a health check.
#[derive(Debug)]
pub struct HealthResponse {
    pub status: String,
    pub node_id: String,
    pub uptime_seconds: u64,
}

/// The model of a `HealthResponse`.
pub struct HealthResponseView {
    pub status: Seq<char>,
    pub node_id: NodeIdView,
    pub uptime_seconds: u64,
}

impl View for HealthResponse {
    type V = HealthResponseView;

    open spec fn view(&self) -> HealthResponseView {
        HealthResponseView {
            status: self.status@,
            node_id: self.node_id@,
            uptime_seconds: self.uptime_seconds,
        }
    }
}

/// Link-state advertisement: the peers that its origin could reach when
/// it wrote the advertisement.
#[derive(Debug)]
pub struct LinkStateAdvertisement {
    /// The node that originated this advertisement.
    pub node_id: String,
    /// The direct peers that the origin held to be connected.
    pub neighbors: Vec<String>,
    /// Counter of the origin; a higher number is newer.
    pub sequence: u64,
    /// When the origin wrote the advertisement. Informational only.
    pub timestamp: Option<Timestamp>,
}

/// The model of a `LinkStateAdvertisement`.
pub struct LsaView {
    pub node_id: NodeIdView,
    pub neighbors: Seq<NodeIdView>,
    pub sequence: u64,
    pub timestamp: Option<Timestamp>,
}

impl View for LinkStateAdvertisement {
    type V = LsaView;

    open spec fn view(&self) -> LsaView {
        LsaView {
            node_id: self.node_id@,
            neighbors: texts_view(self.neighbors@),
            sequence: self.sequence,
            timestamp: self.timestamp,
        }
    }
}

/// The models of the advertisements of `lsas`, in order.
pub open spec fn lsas_view(lsas: Seq<LinkStateAdvertisement>) -> Seq<LsaView> {
    Seq::new(lsas.len(), |i: int| lsas[i]@)
}

/// A copy of `texts`.
pub fn clone_texts(texts: &Vec<String>) -> (copy: Vec<String>)
    ensures
        copy@ == texts@,
{
    let mut copy: Vec<String> = Vec::new();
    let mut i: usize = 0;
    while i < texts.len()
        invariant
            i <= texts.len(),
            copy@ == texts@.subrange(0, i as int),
        decreases texts.len() - i,
    {
        copy.push(texts[i].clone());
        assert(copy@ =~= texts@.subrange(0, i + 1));
        i += 1;
    }
    assert(copy@ =~= texts@);
    copy
}

impl Clone for LinkStateAdvertisement {
    fn clone(&self) -> (copy: Self)
        ensures
            copy@ == self@,
    {
        LinkStateAdvertisement {
            node_id: self.node_id.clone(),
            neighbors: clone_texts(&self.neighbors),
            sequence: self.sequence,
            timestamp: self.timestamp,
        }
    }
}

/// Answer to a received advertisement.
#[derive(Debug)]
pub struct LsaResponse {
    /// Either `accepted` or `ignored`.
    pub status: String,
    pub message: String,
}

/// The model of an `LsaResponse`.
pub struct LsaResponseView {
    pub status: Seq<char>,
    pub message: Seq<char>,
}

impl View for LsaResponse {
    type V = LsaResponseView;

    open spec fn view(&self) -> LsaResponseView {
        LsaResponseView { status: self.status@, message: self.message@ }
    }
}

} // verus!
