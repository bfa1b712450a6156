//! What a gateway decides when a request or a timer tick arrives.
//!
//! The caller owns the sockets and the clocks. It asks this module what to
//! do, performs the network call that the answer names, and hands the
//! outcome back for the final verdict. Nothing here waits or sends.

use crate::client::{is_success, spec_is_success};
use crate::model::{find_lsa, find_peer, peer_ids, status_set, RoutingTableView};
use crate::node_id::{same_text, NodeIdView};
use crate::routing::RoutingTable;
use crate::timestamp::{spec_seconds_between, Timestamp};
use crate::types::{
    clone_texts, peers_view, texts_view, HealthResponse, HealthResponseView,
    LinkStateAdvertisement, LsaResponse, LsaResponseView, LsaView, NodeInfo, NodeInfoView,
    PeerInfo, PeerInfoView, PeerStatus, PeersResponse, ReceiveMessageRequest,
    ReceiveMessageRequestView, SendMessageRequest, SendMessageRequestView, SendMessageResponse,
    SendMessageResponseView,
};
use vstd::prelude::*;
use vstd::string::*;

verus! {

/// Seconds that a gateway waits after its start before it first
/// advertises its links.
pub const LSA_WARM_UP_SECONDS: u64 = 5;

/// Seconds between two advertisements of a gateway.
pub const LSA_INTERVAL_SECONDS: u64 = 30;

/// Seconds that a gateway waits after its start before it first probes
/// its peers.
pub const HEALTH_WARM_UP_SECONDS: u64 = 10;

/// Seconds between two rounds of health probes.
pub const HEALTH_INTERVAL_SECONDS: u64 = 15;

/// Seconds after which a health probe counts as timed out.
pub const HEALTH_TIMEOUT_SECONDS: u64 = 5;

/// Status of a message that reached its destination.
pub open spec fn delivered() -> Seq<char> {
    "delivered"@
}

/// Status of a message for whose destination no next hop is known.
pub open spec fn no_route() -> Seq<char> {
    "no_route"@
}

/// Status of a message that came back to a gateway it had passed.
pub open spec fn loop_detected() -> Seq<char> {
    "loop_detected"@
}

/// Status of a message that the next hop did not take.
pub open spec fn failed() -> Seq<char> {
    "failed"@
}

/// The URL of endpoint `path` on the peer at `address`.
pub open spec fn spec_peer_url(address: Seq<char>, path: Seq<char>) -> Seq<char> {
    "https://"@ + address + path
}

fn peer_url(address: &str, path: &str) -> (url: String)
    ensures
        url@ == spec_peer_url(address@, path@),
{
    let mut url = String::from_str("https://");
    url.append(address);
    url.append(path);
    url
}

/// The URL at which the peer at `address` takes relayed messages.
pub fn message_url(address: &str) -> (url: String)
    ensures
        url@ == spec_peer_url(address@, "/message/receive"@),
{
    peer_url(address, "/message/receive")
}

/// The URL at which the peer at `address` takes advertisements.
pub fn lsa_url(address: &str) -> (url: String)
    ensures
        url@ == spec_peer_url(address@, "/topology/lsa"@),
{
    peer_url(address, "/topology/lsa")
}

/// The URL at which the peer at `address` answers health probes.
pub fn health_url(address: &str) -> (url: String)
    ensures
        url@ == spec_peer_url(address@, "/health"@),
{
    peer_url(address, "/health")
}

/// What a gateway knows of itself and of the network.
pub struct AppState {
    pub node_id: String,
    pub listen_addr: String,
    pub start_time: Timestamp,
    pub routing_table: RoutingTable,
}

/// The model of an `AppState`.
pub struct AppStateView {
    pub node_id: NodeIdView,
    pub listen_addr: Seq<char>,
    pub start_time: Timestamp,
    pub table: RoutingTableView,
}

impl View for AppState {
    type V = AppStateView;

    open spec fn view(&self) -> AppStateView {
        AppStateView {
            node_id: self.node_id@,
            listen_addr: self.listen_addr@,
            start_time: self.start_time,
            table: self.routing_table@,
        }
    }
}

/// What to do with a message.
#[derive(Debug)]
pub enum Dispatch {
    /// Answer the sender with this response.
    Respond(SendMessageResponse),
    /// Post `request` to `url`, the peer `next_hop`, and conclude from the
    /// outcome with `conclude_forward`.
    Forward { next_hop: String, url: String, request: ReceiveMessageRequest },
}

/// The model of a `Dispatch`.
pub enum DispatchView {
    Respond(SendMessageResponseView),
    Forward { next_hop: NodeIdView, url: Seq<char>, request: ReceiveMessageRequestView },
}

impl View for Dispatch {
    type V = DispatchView;

    open spec fn view(&self) -> DispatchView {
        match self {
            Dispatch::Respond(response) => DispatchView::Respond(response@),
            Dispatch::Forward { next_hop, url, request } => DispatchView::Forward {
                next_hop: next_hop@,
                url: url@,
                request: request@,
            },
        }
    }
}

/// How a forwarded message fared.
#[derive(Debug)]
pub enum ForwardEvent {
    /// The peer could not be reached, or the exchange broke off.
    Unreachable,
    /// The peer answered with this HTTP status; `body` is its response if
    /// one could be read.
    Answered { status: u16, body: Option<SendMessageResponse> },
}

/// The model of a `ForwardEvent`.
pub enum ForwardEventView {
    Unreachable,
    Answered { status: u16, body: Option<SendMessageResponseView> },
}

impl View for ForwardEvent {
    type V = ForwardEventView;

    open spec fn view(&self) -> ForwardEventView {
        match self {
            ForwardEvent::Unreachable => ForwardEventView::Unreachable,
            ForwardEvent::Answered { status, body } => ForwardEventView::Answered {
                status: *status,
                body: match body {
                    Some(response) => Some(response@),
                    None => None,
                },
            },
        }
    }
}

/// How a health probe fared.
#[derive(Debug, Clone, Copy, PartialEq, Eq, Structural)]
pub enum ProbeEvent {
    /// The peer answered with this HTTP status.
    Answered { status: u16 },
    /// The peer could not be reached.
    Unreachable,
    /// The peer did not answer in time.
    TimedOut,
}

/// What a received advertisement leads to.
#[derive(Debug)]
pub struct LsaDisposition {
    /// The answer to the peer that sent the advertisement.
    pub response: LsaResponse,
    /// The peers to pass the advertisement on to.
    pub flood_to: Vec<PeerInfo>,
}

/// The model of an `LsaDisposition`.
pub struct LsaDispositionView {
    pub response: LsaResponseView,
    pub flood_to: Seq<PeerInfoView>,
}

impl View for LsaDisposition {
    type V = LsaDispositionView;

    open spec fn view(&self) -> LsaDispositionView {
        LsaDispositionView { response: self.response@, flood_to: peers_view(self.flood_to@) }
    }
}

/// An advertisement of this gateway and the peers to send it to.
#[derive(Debug)]
pub struct Broadcast {
    pub lsa: LinkStateAdvertisement,
    pub targets: Vec<PeerInfo>,
}

/// The model of a `Broadcast`.
pub struct BroadcastView {
    pub lsa: LsaView,
    pub targets: Seq<PeerInfoView>,
}

impl View for Broadcast {
    type V = BroadcastView;

    open spec fn view(&self) -> BroadcastView {
        BroadcastView { lsa: self.lsa@, targets: peers_view(self.targets@) }
    }
}

/// The model of an optional broadcast.
pub open spec fn broadcast_option_view(broadcast: Option<Broadcast>) -> Option<BroadcastView> {
    match broadcast {
        Some(b) => Some(b@),
        None => None,
    }
}

/// A response with the given status and route.
pub open spec fn reply(status: Seq<char>, route: Seq<NodeIdView>) -> SendMessageResponseView {
    SendMessageResponseView { status, route }
}

/// The peers of `peers` other than `origin`, in order.
pub open spec fn others_of(peers: Seq<PeerInfoView>, origin: NodeIdView) -> Seq<PeerInfoView>
    decreases peers.len(),
{
    if peers.len() == 0 {
        Seq::empty()
    } else if peers.last().node_id != origin {
        others_of(peers.drop_last(), origin).push(peers.last())
    } else {
        others_of(peers.drop_last(), origin)
    }
}

/// The status that a probe outcome gives a peer: connected after an
/// answer that reports success, disconnected after anything else.
pub open spec fn spec_probe_verdict(event: ProbeEvent) -> PeerStatus {
    match event {
        ProbeEvent::Answered { status } => if spec_is_success(status) {
            PeerStatus::Connected
        } else {
            PeerStatus::Disconnected
        },
        ProbeEvent::Unreachable => PeerStatus::Disconnected,
        ProbeEvent::TimedOut => PeerStatus::Disconnected,
    }
}

/// The response that concludes a forwarded message: the answer of the
/// next hop as it stands, if it reported success and could be read;
/// otherwise `failed`, with the route that the forwarded message carried.
pub open spec fn spec_conclude_forward(
    forwarded_route: Seq<NodeIdView>,
    event: ForwardEventView,
) -> SendMessageResponseView {
    match event {
        ForwardEventView::Answered { status, body: Some(response) } => if spec_is_success(
            status,
        ) {
            response
        } else {
            reply(failed(), forwarded_route)
        },
        _ => reply(failed(), forwarded_route),
    }
}

impl AppStateView {
    /// The route from this gateway to `destination`.
    pub open spec fn route_to(self, destination: NodeIdView) -> Option<Seq<NodeIdView>> {
        self.table.topology(self.node_id).route(destination)
    }

    /// What to do with a message for `to` once the non-empty route `path`
    /// is known: forward it to the first node of the path, if that is a
    /// direct peer, with `onward` as the route in the forwarded message;
    /// otherwise answer `no_route` with the route `travelled`.
    pub open spec fn forwarding(
        self,
        path: Seq<NodeIdView>,
        to: NodeIdView,
        content: Seq<char>,
        travelled: Seq<NodeIdView>,
        onward: Seq<NodeIdView>,
    ) -> DispatchView {
        match self.table.peer(path[0]) {
            Some(peer) => DispatchView::Forward {
                next_hop: path[0],
                url: spec_peer_url(peer.address, "/message/receive"@),
                request: ReceiveMessageRequestView {
                    from: self.node_id,
                    to,
                    content,
                    route: onward,
                },
            },
            None => DispatchView::Respond(reply(no_route(), travelled)),
        }
    }

    /// What to do with a message that a user hands to this gateway.
    pub open spec fn send_plan(self, request: SendMessageRequestView) -> DispatchView {
        let here = seq![self.node_id];
        match self.route_to(request.to) {
            None => DispatchView::Respond(reply(no_route(), here)),
            Some(path) => if path.len() == 0 {
                DispatchView::Respond(reply(delivered(), here))
            } else {
                self.forwarding(path, request.to, request.content, here, here)
            },
        }
    }

    /// What to do with a message that a peer relays to this gateway.
    pub open spec fn receive_plan(self, request: ReceiveMessageRequestView) -> DispatchView {
        if request.to == self.node_id {
            DispatchView::Respond(reply(delivered(), request.route.push(self.node_id)))
        } else if request.route.contains(self.node_id) {
            DispatchView::Respond(reply(loop_detected(), request.route))
        } else {
            match self.route_to(request.to) {
                Some(path) if path.len() > 0 => self.forwarding(
                    path,
                    request.to,
                    request.content,
                    request.route,
                    request.route.push(self.node_id),
                ),
                _ => DispatchView::Respond(reply(no_route(), request.route)),
            }
        }
    }

    /// What a received advertisement leads to: if the table accepts it,
    /// the answer `accepted` and the connected peers other than its origin
    /// to pass it on to; otherwise the answer `ignored` and nobody.
    pub open spec fn lsa_disposition(self, lsa: LsaView) -> LsaDispositionView {
        if self.table.accepts(lsa) {
            LsaDispositionView {
                response: LsaResponseView {
                    status: "accepted"@,
                    message: "LSA from "@ + lsa.node_id + " accepted and flooded"@,
                },
                flood_to: others_of(self.table.connected_peers(), lsa.node_id),
            }
        } else {
            LsaDispositionView {
                response: LsaResponseView {
                    status: "ignored"@,
                    message: "LSA from "@ + lsa.node_id + " already known or outdated"@,
                },
                flood_to: Seq::empty(),
            }
        }
    }

    /// The state with `table` as its routing table.
    pub open spec fn with_table(self, table: RoutingTableView) -> AppStateView {
        AppStateView { table, ..self }
    }

    /// The advertisement that this gateway makes at time `now`, with the
    /// peers to send it to, or `None` if its counter is exhausted.
    pub open spec fn origination(self, now: Timestamp) -> Option<BroadcastView> {
        if self.table.own_sequence < u64::MAX {
            Some(
                BroadcastView {
                    lsa: self.table.advertisement(self.node_id, now),
                    targets: self.table.connected_peers(),
                },
            )
        } else {
            None
        }
    }

    /// The state after an attempt to advertise.
    pub open spec fn after_origination(self) -> AppStateView {
        if self.table.own_sequence < u64::MAX {
            self.with_table(self.table.after_advertising())
        } else {
            self
        }
    }

    /// Whether the probe outcome `event` brings the peer `peer_id` back:
    /// the probe succeeded, and the peer was not connected before.
    pub open spec fn recovers(self, peer_id: NodeIdView, event: ProbeEvent) -> bool {
        spec_probe_verdict(event) == PeerStatus::Connected && !(self.table.peer(
            peer_id,
        ) matches Some(peer) && peer.status == PeerStatus::Connected)
    }
}

/// Every peer of `peers` other than `origin`, and nothing else, is among
/// `others_of(peers, origin)`.
pub proof fn lemma_others_of_holds(peers: Seq<PeerInfoView>, origin: NodeIdView, peer: PeerInfoView)
    ensures
        others_of(peers, origin).contains(peer) <==> peers.contains(peer) && peer.node_id
            != origin,
    decreases peers.len(),
{
    if peers.len() > 0 {
        let front = peers.drop_last();
        lemma_others_of_holds(front, origin, peer);
        if peers.contains(peer) {
            let i = choose|i: int| 0 <= i < peers.len() && peers[i] == peer;
            if i < front.len() {
                assert(front[i] == peer);
            }
        }
        if front.contains(peer) {
            let i = choose|i: int| 0 <= i < front.len() && front[i] == peer;
            assert(peers[i] == peer);
        }
        if peers.last().node_id != origin {
            let nearer = others_of(front, origin);
            if nearer.push(peers.last()).contains(peer) {
                let i = choose|i: int|
                    0 <= i < nearer.push(peers.last()).len() && nearer.push(peers.last())[i]
                        == peer;
                if i < nearer.len() {
                    assert(nearer[i] == peer);
                }
            }
            if nearer.contains(peer) {
                let i = choose|i: int| 0 <= i < nearer.len() && nearer[i] == peer;
                assert(nearer.push(peers.last())[i] == peer);
            }
            if peer == peers.last() {
                assert(nearer.push(peers.last())[nearer.len() as int] == peer);
                assert(peers[peers.len() - 1] == peer);
            }
        }
    }
}

/// A message that is forwarded has passed no gateway twice: if the route
/// of a relayed message holds no node twice, neither does the route of
/// the message that is forwarded in its place.
pub proof fn lemma_forwarded_route_has_no_repeats(
    state: AppStateView,
    request: ReceiveMessageRequestView,
)
    requires
        request.route.no_duplicates(),
        state.receive_plan(request) is Forward,
    ensures
        state.receive_plan(request)->Forward_request.route == request.route.push(state.node_id),
        state.receive_plan(request)->Forward_request.route.no_duplicates(),
{
}

fn respond(status: &str, route: Vec<String>) -> (step: Dispatch)
    ensures
        step@ == DispatchView::Respond(reply(status@, texts_view(route@))),
{
    Dispatch::Respond(SendMessageResponse { status: status.to_string(), route })
}

/// Whether `id` is among `route`.
fn route_holds(route: &Vec<String>, id: &str) -> (held: bool)
    ensures
        held == texts_view(route@).contains(id@),
{
    let mut i: usize = 0;
    while i < route.len()
        invariant
            i <= route.len(),
            forall|j: int| 0 <= j < i ==> texts_view(route@)[j] != id@,
        decreases route.len() - i,
    {
        if same_text(route[i].as_str(), id) {
            assert(texts_view(route@)[i as int] == id@);
            return true;
        }
        i += 1;
    }
    false
}

/// The peers of `peers` other than `origin`, in order.
fn peers_other_than(peers: Vec<PeerInfo>, origin: &str) -> (others: Vec<PeerInfo>)
    ensures
        peers_view(others@) == others_of(peers_view(peers@), origin@),
{
    let mut others: Vec<PeerInfo> = Vec::new();
    let mut i: usize = 0;
    assert(peers_view(peers@).take(0) =~= Seq::empty());
    assert(peers_view(others@) =~= Seq::empty());
    while i < peers.len()
        invariant
            i <= peers.len(),
            peers_view(others@) == others_of(peers_view(peers@).take(i as int), origin@),
        decreases peers.len() - i,
    {
        let ghost upto = peers_view(peers@).take(i + 1);
        assert(upto.drop_last() =~= peers_view(peers@).take(i as int));
        assert(upto.last() == peers@[i as int]@);
        if !same_text(peers[i].node_id.as_str(), origin) {
            let ghost before = others@;
            others.push(peers[i].clone());
            assert(peers_view(others@) =~= peers_view(before).push(upto.last()));
        }
        i += 1;
    }
    assert(peers_view(peers@).take(peers.len() as int) =~= peers_view(peers@));
    others
}

/// The status that a probe outcome gives a peer.
pub fn probe_verdict(event: ProbeEvent) -> (status: PeerStatus)
    ensures
        status == spec_probe_verdict(event),
{
    match event {
        ProbeEvent::Answered { status } => if is_success(status) {
            PeerStatus::Connected
        } else {
            PeerStatus::Disconnected
        },
        ProbeEvent::Unreachable => PeerStatus::Disconnected,
        ProbeEvent::TimedOut => PeerStatus::Disconnected,
    }
}

/// Concludes a forwarded message from its outcome.
///
/// The answer of the next hop is passed on as it stands if it reported
/// success and could be read. A peer that could not be reached, a status
/// outside 200 to 299 and an unreadable answer all give `failed`, with
/// `forwarded_route`, the route that the forwarded message carried.
pub fn conclude_forward(forwarded_route: Vec<String>, event: ForwardEvent) -> (response:
    SendMessageResponse)
    ensures
        response@ == spec_conclude_forward(texts_view(forwarded_route@), event@),
{
    match event {
        ForwardEvent::Answered { status, body: Some(answer) } => {
            if is_success(status) {
                answer
            } else {
                SendMessageResponse { status: "failed".to_string(), route: forwarded_route }
            }
        },
        _ => SendMessageResponse { status: "failed".to_string(), route: forwarded_route },
    }
}

impl AppState {
    /// The state of a gateway that starts now.
    pub fn new(node_id: String, listen_addr: String, routing_table: RoutingTable) -> (state: Self)
        ensures
            state@.node_id == node_id@,
            state@.listen_addr == listen_addr@,
            state@.table == routing_table@,
    {
        AppState::started_at(node_id, listen_addr, Timestamp::now(), routing_table)
    }

    /// The state of a gateway that started at `start_time`.
    pub fn started_at(
        node_id: String,
        listen_addr: String,
        start_time: Timestamp,
        routing_table: RoutingTable,
    ) -> (state: Self)
        ensures
            state@ == (AppStateView {
                node_id: node_id@,
                listen_addr: listen_addr@,
                start_time,
                table: routing_table@,
            }),
    {
        AppState { node_id, listen_addr, start_time, routing_table }
    }

    /// Whole seconds from the start of the gateway to `now`; zero if the
    /// clock went back.
    pub fn uptime_at(&self, now: Timestamp) -> (seconds: u64)
        ensures
            seconds == spec_seconds_between(self.start_time, now),
    {
        now.seconds_since(self.start_time)
    }

    /// Whole seconds since the start of the gateway.
    pub fn uptime_seconds(&self) -> (seconds: u64)
        ensures
            exists|now: Timestamp| seconds == #[trigger] spec_seconds_between(self.start_time, now),
    {
        self.uptime_at(Timestamp::now())
    }

    /// The answer to a health check made at time `now`.
    pub fn health_at(&self, now: Timestamp) -> (response: HealthResponse)
        ensures
            response@ == (HealthResponseView {
                status: "healthy"@,
                node_id: self.node_id@,
                uptime_seconds: spec_seconds_between(self.start_time, now),
            }),
    {
        HealthResponse {
            status: "healthy".to_string(),
            node_id: self.node_id.clone(),
            uptime_seconds: self.uptime_at(now),
        }
    }

    /// The answer to a health check.
    pub fn health(&self) -> (response: HealthResponse)
        ensures
            response@.status == "healthy"@,
            response@.node_id == self.node_id@,
            exists|now: Timestamp|
                response@.uptime_seconds == #[trigger] spec_seconds_between(self.start_time, now),
    {
        self.health_at(Timestamp::now())
    }

    /// What this gateway tells about itself; `version` is the version of
    /// the running program.
    pub fn peer_info(&self, version: &str) -> (info: NodeInfo)
        ensures
            info@ == (NodeInfoView {
                node_id: self.node_id@,
                listen_addr: self.listen_addr@,
                peers: peer_ids(self@.table.peers),
                version: version@,
            }),
    {
        let all = self.routing_table.get_all_peers();
        let mut ids: Vec<String> = Vec::new();
        let mut i: usize = 0;
        while i < all.len()
            invariant
                i <= all.len(),
                ids.len() == i,
                forall|j: int| 0 <= j < i ==> (#[trigger] ids@[j])@ == all@[j]@.node_id,
            decreases all.len() - i,
        {
            ids.push(all[i].node_id.clone());
            i += 1;
        }
        assert(texts_view(ids@) =~= peer_ids(peers_view(all@)));
        NodeInfo {
            node_id: self.node_id.clone(),
            listen_addr: self.listen_addr.clone(),
            peers: ids,
            version: version.to_string(),
        }
    }

    /// The direct peers of this gateway.
    pub fn peers(&self) -> (response: PeersResponse)
        ensures
            response@ == self@.table.peers,
    {
        PeersResponse { peers: self.routing_table.get_all_peers() }
    }

    fn forward(
        &self,
        path: &Vec<String>,
        to: &str,
        content: &str,
        travelled: Vec<String>,
        onward: Vec<String>,
    ) -> (step: Dispatch)
        requires
            path.len() > 0,
        ensures
            step@ == self@.forwarding(
                texts_view(path@),
                to@,
                content@,
                texts_view(travelled@),
                texts_view(onward@),
            ),
    {
        match self.routing_table.get_peer(path[0].as_str()) {
            Some(peer) => Dispatch::Forward {
                next_hop: path[0].clone(),
                url: message_url(peer.address.as_str()),
                request: ReceiveMessageRequest {
                    from: self.node_id.clone(),
                    to: to.to_string(),
                    content: content.to_string(),
                    route: onward,
                },
            },
            None => respond("no_route", travelled),
        }
    }

    fn here(&self) -> (route: Vec<String>)
        ensures
            texts_view(route@) == seq![self.node_id@],
    {
        let mut route: Vec<String> = Vec::new();
        route.push(self.node_id.clone());
        assert(texts_view(route@) =~= seq![self.node_id@]);
        route
    }

    /// Decides what to do with a message that a user hands to this
    /// gateway.
    ///
    /// Without a route to the destination the answer is `no_route`. A
    /// message to this gateway itself is `delivered`. Otherwise the
    /// message goes to the first node on the route, if that is a direct
    /// peer, and else the answer is `no_route`. Every answer made here
    /// carries the route that holds this gateway alone, and so does the
    /// forwarded message.
    ///
    /// The last three clauses spell out the plain cases: a message to
    /// this gateway itself, to a connected direct peer, and to a node
    /// that is no connected direct peer and that no advertisement lists.
    pub fn begin_send(&self, request: &SendMessageRequest) -> (step: Dispatch)
        ensures
            step@ == self@.send_plan(request@),
            request@.to == self@.node_id ==> step@ == DispatchView::Respond(
                reply(delivered(), seq![self@.node_id]),
            ),
            request@.to != self@.node_id && self@.table.has_connected_peer(request@.to) ==> step@
                == self@.forwarding(
                seq![request@.to],
                request@.to,
                request@.content,
                seq![self@.node_id],
                seq![self@.node_id],
            ),
            request@.to != self@.node_id && !self@.table.has_connected_peer(request@.to)
                && !self@.table.is_advertised(request@.to) ==> step@ == DispatchView::Respond(
                reply(no_route(), seq![self@.node_id]),
            ),
    {
        match self.routing_table.find_route_from(self.node_id.as_str(), request.to.as_str()) {
            None => respond("no_route", self.here()),
            Some(path) => {
                if path.len() == 0 {
                    respond("delivered", self.here())
                } else {
                    self.forward(
                        &path,
                        request.to.as_str(),
                        request.content.as_str(),
                        self.here(),
                        self.here(),
                    )
                }
            },
        }
    }

    /// Decides what to do with a message that a peer relays to this
    /// gateway.
    ///
    /// A message for this gateway is `delivered`, with this gateway added
    /// to its route. A message whose route holds this gateway already is
    /// answered `loop_detected` and not forwarded. Otherwise the message
    /// goes to the first node on the route to its destination, with this
    /// gateway added to its route; without a route, or if that node is no
    /// direct peer, the answer is `no_route` with the route as it came.
    ///
    /// The last two clauses spell out the plain cases of a message that
    /// is neither for this gateway nor in a loop: one for a connected
    /// direct peer, and one for a node that is no connected direct peer
    /// and that no advertisement lists.
    pub fn begin_receive(&self, request: ReceiveMessageRequest) -> (step: Dispatch)
        ensures
            step@ == self@.receive_plan(request@),
            request@.to != self@.node_id && !request@.route.contains(self@.node_id)
                && self@.table.has_connected_peer(request@.to) ==> step@ == self@.forwarding(
                seq![request@.to],
                request@.to,
                request@.content,
                request@.route,
                request@.route.push(self@.node_id),
            ),
            request@.to != self@.node_id && !request@.route.contains(self@.node_id)
                && !self@.table.has_connected_peer(request@.to) && !self@.table.is_advertised(
                request@.to,
            ) ==> step@ == DispatchView::Respond(reply(no_route(), request@.route)),
    {
        if same_text(request.to.as_str(), self.node_id.as_str()) {
            let mut route = request.route;
            let ghost came = route@;
            route.push(self.node_id.clone());
            assert(texts_view(route@) =~= texts_view(came).push(self.node_id@));
            return respond("delivered", route);
        }
        if route_holds(&request.route, self.node_id.as_str()) {
            return respond("loop_detected", request.route);
        }
        match self.routing_table.find_route_from(self.node_id.as_str(), request.to.as_str()) {
            Some(path) => {
                if path.len() > 0 {
                    let mut onward = clone_texts(&request.route);
                    let ghost came = onward@;
                    onward.push(self.node_id.clone());
                    assert(texts_view(onward@) =~= texts_view(came).push(self.node_id@));
                    self.forward(
                        &path,
                        request.to.as_str(),
                        request.content.as_str(),
                        request.route,
                        onward,
                    )
                } else {
                    respond("no_route", request.route)
                }
            },
            None => respond("no_route", request.route),
        }
    }

    /// Takes in an advertisement that a peer sent.
    ///
    /// The advertisement is offered to the routing table. If the table
    /// accepts it, the answer is `accepted` and the advertisement is to be
    /// passed on to every connected peer other than its origin. Otherwise
    /// the answer is `ignored` and nothing is passed on.
    pub fn handle_lsa(&mut self, lsa: &LinkStateAdvertisement) -> (outcome: LsaDisposition)
        ensures
            outcome@ == old(self)@.lsa_disposition(lsa@),
            final(self)@ == old(self)@.with_table(old(self)@.table.offered(lsa@)),
            forall|origin: NodeIdView| #[trigger]
                find_lsa(final(self)@.table.lsas, origin) == if origin == lsa@.node_id && old(
                    self,
                )@.table.accepts(lsa@) {
                    Some(lsa@)
                } else {
                    find_lsa(old(self)@.table.lsas, origin)
                },
            forall|peer: PeerInfoView|
                #[trigger] outcome@.flood_to.contains(peer) <==> old(self)@.table.accepts(lsa@)
                    && old(self)@.table.peer(peer.node_id) == Some(peer) && peer.status
                    == PeerStatus::Connected && peer.node_id != lsa@.node_id,
    {
        if self.routing_table.process_lsa(lsa.clone()) {
            let mut message = String::from_str("LSA from ");
            message.append(lsa.node_id.as_str());
            message.append(" accepted and flooded");
            let connected = self.routing_table.get_connected_peers();
            let flood_to = peers_other_than(connected, lsa.node_id.as_str());
            proof {
                assert forall|peer: PeerInfoView|
                    #[trigger] peers_view(flood_to@).contains(peer) <==> old(self)@.table.peer(
                        peer.node_id,
                    ) == Some(peer) && peer.status == PeerStatus::Connected && peer.node_id
                        != lsa@.node_id by {
                    lemma_others_of_holds(peers_view(connected@), lsa@.node_id, peer);
                }
            }
            LsaDisposition {
                response: LsaResponse { status: "accepted".to_string(), message },
                flood_to,
            }
        } else {
            let mut message = String::from_str("LSA from ");
            message.append(lsa.node_id.as_str());
            message.append(" already known or outdated");
            let nobody: Vec<PeerInfo> = Vec::new();
            assert(peers_view(nobody@) =~= Seq::empty());
            LsaDisposition {
                response: LsaResponse { status: "ignored".to_string(), message },
                flood_to: nobody,
            }
        }
    }

    /// Makes the next advertisement of this gateway, stamped `now`, and
    /// names the connected peers to send it to. Returns `None`, and
    /// changes nothing, once the sequence counter is exhausted.
    pub fn originate_lsa_at(&mut self, now: Timestamp) -> (broadcast: Option<Broadcast>)
        ensures
            broadcast_option_view(broadcast) == old(self)@.origination(now),
            final(self)@ == old(self)@.after_origination(),
            broadcast is Some <==> old(self)@.table.own_sequence < u64::MAX,
            broadcast matches Some(b) ==> {
                &&& b.lsa.sequence == old(self)@.table.own_sequence + 1
                &&& final(self)@.table.own_sequence == b.lsa.sequence
                &&& forall|id: NodeIdView|
                    #[trigger] b@.lsa.neighbors.contains(id) <==> old(
                        self,
                    )@.table.has_connected_peer(id)
                &&& forall|peer: PeerInfoView|
                    #[trigger] b@.targets.contains(peer) <==> old(self)@.table.peer(peer.node_id)
                        == Some(peer) && peer.status == PeerStatus::Connected
            },
    {
        if self.routing_table.own_sequence() == u64::MAX {
            return None;
        }
        let lsa = self.routing_table.generate_lsa_at(self.node_id.as_str(), now);
        let targets = self.routing_table.get_connected_peers();
        Some(Broadcast { lsa, targets })
    }

    /// Makes the next advertisement of this gateway, stamped with the
    /// time of the call, and names the connected peers to send it to.
    pub fn originate_lsa(&mut self) -> (broadcast: Option<Broadcast>)
        ensures
            exists|now: Timestamp|
                broadcast_option_view(broadcast) == #[trigger] old(self)@.origination(now),
            final(self)@ == old(self)@.after_origination(),
            broadcast is Some <==> old(self)@.table.own_sequence < u64::MAX,
            broadcast matches Some(b) ==> {
                &&& b.lsa@.node_id == old(self)@.node_id
                &&& b.lsa.timestamp is Some
                &&& b.lsa.sequence == old(self)@.table.own_sequence + 1
                &&& final(self)@.table.own_sequence == b.lsa.sequence
                &&& forall|id: NodeIdView|
                    #[trigger] b@.lsa.neighbors.contains(id) <==> old(
                        self,
                    )@.table.has_connected_peer(id)
                &&& forall|peer: PeerInfoView|
                    #[trigger] b@.targets.contains(peer) <==> old(self)@.table.peer(peer.node_id)
                        == Some(peer) && peer.status == PeerStatus::Connected
            },
    {
        self.originate_lsa_at(Timestamp::now())
    }

    /// Records the outcome of a health probe of peer `peer_id` made at
    /// time `now`: the peer becomes connected after an answer that
    /// reports success and disconnected after anything else. Returns
    /// whether the peer came back, that is, the probe succeeded and the
    /// peer was not connected before.
    pub fn record_probe_at(
        &mut self,
        peer_id: &str,
        event: ProbeEvent,
        now: Timestamp,
    ) -> (recovered: bool)
        ensures
            recovered == old(self)@.recovers(peer_id@, event),
            final(self)@ == old(self)@.with_table(
                old(self)@.table.with_peer_status(peer_id@, spec_probe_verdict(event), now),
            ),
            forall|id: NodeIdView| #[trigger]
                find_peer(final(self)@.table.peers, id) == if id == peer_id@ {
                    status_set(
                        find_peer(old(self)@.table.peers, id),
                        spec_probe_verdict(event),
                        now,
                    )
                } else {
                    find_peer(old(self)@.table.peers, id)
                },
    {
        let verdict = probe_verdict(event);
        let was_connected = match self.routing_table.get_peer(peer_id) {
            Some(peer) => peer.status == PeerStatus::Connected,
            None => false,
        };
        self.routing_table.update_peer_status_at(peer_id, verdict, now);
        verdict == PeerStatus::Connected && !was_connected
    }

    /// Records the outcome of a health probe of peer `peer_id` made at
    /// the time of the call.
    pub fn record_probe(&mut self, peer_id: &str, event: ProbeEvent) -> (recovered: bool)
        ensures
            recovered == old(self)@.recovers(peer_id@, event),
            exists|now: Timestamp|
                {
                    &&& final(self)@ == old(self)@.with_table(
                        #[trigger] old(self)@.table.with_peer_status(
                            peer_id@,
                            spec_probe_verdict(event),
                            now,
                        ),
                    )
                    &&& forall|id: NodeIdView| #[trigger]
                        find_peer(final(self)@.table.peers, id) == if id == peer_id@ {
                            status_set(
                                find_peer(old(self)@.table.peers, id),
                                spec_probe_verdict(event),
                                now,
                            )
                        } else {
                            find_peer(old(self)@.table.peers, id)
                        }
                },
    {
        self.record_probe_at(peer_id, event, Timestamp::now())
    }
}

} // verus!
