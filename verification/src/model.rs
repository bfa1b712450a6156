//! The model of the routing table: what it holds, and what each
//! operation makes of it.
//!
//! The table is modeled as two sequences without duplicates, the direct
//! peers and the stored advertisements, and the counter of the node's own
//! advertisements. Every operation of `RoutingTable` is a function on this
//! model; the laws at the end of the file hold of every sequence of
//! operations.

use crate::config::PeerConfigView;
use crate::node_id::NodeIdView;
use crate::timestamp::Timestamp;
use crate::topology::Topology;
use crate::types::{LsaView, PeerInfoView, PeerStatus};
use vstd::prelude::*;

verus! {

/// Where `id` stands in `ids`, if it occurs there.
pub open spec fn position_of(ids: Seq<NodeIdView>, id: NodeIdView) -> Option<int> {
    if ids.contains(id) {
        Some(ids.index_of(id))
    } else {
        None
    }
}

/// In a sequence without duplicates an identifier is found where it
/// stands.
pub proof fn lemma_position_found(ids: Seq<NodeIdView>, id: NodeIdView, at: int)
    requires
        ids.no_duplicates(),
        0 <= at < ids.len(),
        ids[at] == id,
    ensures
        position_of(ids, id) == Some(at),
{
}

/// An identifier that stands nowhere has no position.
pub proof fn lemma_position_absent(ids: Seq<NodeIdView>, id: NodeIdView)
    requires
        forall|i: int| 0 <= i < ids.len() ==> ids[i] != id,
    ensures
        position_of(ids, id) is None,
{
}

/// Where identifiers stand after one more was added at the end.
pub proof fn lemma_position_after_push(ids: Seq<NodeIdView>, added: NodeIdView, id: NodeIdView)
    requires
        ids.no_duplicates(),
        !ids.contains(added),
    ensures
        ids.push(added).no_duplicates(),
        position_of(ids.push(added), id) == if id == added {
            Some(ids.len() as int)
        } else {
            position_of(ids, id)
        },
{
    let after = ids.push(added);
    assert forall|i: int, j: int| 0 <= i < j < after.len() implies after[i] != after[j] by {
        if j == ids.len() {
            assert(ids[i] == after[i]);
        }
    }
    if id == added {
        lemma_position_found(after, id, ids.len() as int);
    } else if ids.contains(id) {
        lemma_position_found(after, id, ids.index_of(id));
    } else {
        assert forall|i: int| 0 <= i < after.len() implies after[i] != id by {
            if i < ids.len() {
                assert(ids[i] == after[i]);
            }
        }
        lemma_position_absent(after, id);
    }
}

/// Where identifiers stand after the one in place `gone` was taken out.
pub proof fn lemma_position_after_remove(ids: Seq<NodeIdView>, gone: int, id: NodeIdView)
    requires
        ids.no_duplicates(),
        0 <= gone < ids.len(),
    ensures
        ids.remove(gone).no_duplicates(),
        position_of(ids.remove(gone), id) == match position_of(ids, id) {
            Some(at) => if at == gone {
                None
            } else if at < gone {
                Some(at)
            } else {
                Some(at - 1)
            },
            None => None,
        },
{
    let after = ids.remove(gone);
    assert forall|i: int, j: int| 0 <= i < j < after.len() implies after[i] != after[j] by {
        let from_i = if i < gone {
            i
        } else {
            i + 1
        };
        let from_j = if j < gone {
            j
        } else {
            j + 1
        };
        assert(after[i] == ids[from_i] && after[j] == ids[from_j]);
    }
    if ids.contains(id) && ids.index_of(id) != gone {
        let at = ids.index_of(id);
        if at < gone {
            lemma_position_found(after, id, at);
        } else {
            lemma_position_found(after, id, at - 1);
        }
    } else {
        assert forall|i: int| 0 <= i < after.len() implies after[i] != id by {
            let from = if i < gone {
                i
            } else {
                i + 1
            };
            assert(after[i] == ids[from]);
        }
        lemma_position_absent(after, id);
    }
}

/// The identifiers of `peers`, in order.
pub open spec fn peer_ids(peers: Seq<PeerInfoView>) -> Seq<NodeIdView> {
    Seq::new(peers.len(), |i: int| peers[i].node_id)
}

/// The origins of `lsas`, in order.
pub open spec fn origins(lsas: Seq<LsaView>) -> Seq<NodeIdView> {
    Seq::new(lsas.len(), |i: int| lsas[i].node_id)
}

/// The peer of `peers` with identifier `id`, if there is one.
pub open spec fn find_peer(peers: Seq<PeerInfoView>, id: NodeIdView) -> Option<PeerInfoView> {
    match position_of(peer_ids(peers), id) {
        Some(i) => Some(peers[i]),
        None => None,
    }
}

/// The advertisement of `lsas` with origin `origin`, if there is one.
pub open spec fn find_lsa(lsas: Seq<LsaView>, origin: NodeIdView) -> Option<LsaView> {
    match position_of(origins(lsas), origin) {
        Some(i) => Some(lsas[i]),
        None => None,
    }
}

/// `peers` after `peer` was added: it replaces the peer of the same
/// identifier where that stands, and else comes last.
pub open spec fn peers_with(peers: Seq<PeerInfoView>, peer: PeerInfoView) -> Seq<PeerInfoView> {
    match position_of(peer_ids(peers), peer.node_id) {
        Some(i) => peers.update(i, peer),
        None => peers.push(peer),
    }
}

/// `peers` without the peer `id`.
pub open spec fn peers_without(peers: Seq<PeerInfoView>, id: NodeIdView) -> Seq<PeerInfoView> {
    match position_of(peer_ids(peers), id) {
        Some(i) => peers.remove(i),
        None => peers,
    }
}

/// `peer` after its status was set at time `now`: a peer that becomes
/// connected was last seen now.
pub open spec fn peer_with_status(
    peer: PeerInfoView,
    status: PeerStatus,
    now: Timestamp,
) -> PeerInfoView {
    PeerInfoView {
        status,
        last_seen: if status == PeerStatus::Connected {
            Some(now)
        } else {
            peer.last_seen
        },
        ..peer
    }
}

/// `peer` after it was seen at time `now`.
pub open spec fn peer_seen(peer: PeerInfoView, now: Timestamp) -> PeerInfoView {
    PeerInfoView { last_seen: Some(now), ..peer }
}

/// The peers of `peers` that are connected, in order.
pub open spec fn connected_of(peers: Seq<PeerInfoView>) -> Seq<PeerInfoView>
    decreases peers.len(),
{
    if peers.len() == 0 {
        Seq::empty()
    } else if peers.last().status == PeerStatus::Connected {
        connected_of(peers.drop_last()).push(peers.last())
    } else {
        connected_of(peers.drop_last())
    }
}

/// The peer that a configuration entry starts as: status unknown, never
/// seen.
pub open spec fn configured_peer(config: PeerConfigView) -> PeerInfoView {
    PeerInfoView {
        node_id: config.node_id,
        address: config.address,
        status: PeerStatus::Unknown,
        last_seen: None,
    }
}

/// The peers that a list of configuration entries gives: each entry is
/// added in turn, so a later entry replaces an earlier one of the same
/// identifier.
pub open spec fn configured_peers(configs: Seq<PeerConfigView>) -> Seq<PeerInfoView>
    decreases configs.len(),
{
    if configs.len() == 0 {
        Seq::empty()
    } else {
        peers_with(configured_peers(configs.drop_last()), configured_peer(configs.last()))
    }
}

/// `lsas` after `lsa` was stored: it replaces the advertisement of the
/// same origin where that stands, and else comes last.
pub open spec fn lsas_with(lsas: Seq<LsaView>, lsa: LsaView) -> Seq<LsaView> {
    match position_of(origins(lsas), lsa.node_id) {
        Some(i) => lsas.update(i, lsa),
        None => lsas.push(lsa),
    }
}

/// Adding a peer keeps identifiers unique.
pub proof fn lemma_peers_with_unique(peers: Seq<PeerInfoView>, peer: PeerInfoView)
    requires
        peer_ids(peers).no_duplicates(),
    ensures
        peer_ids(peers_with(peers, peer)).no_duplicates(),
{
    match position_of(peer_ids(peers), peer.node_id) {
        Some(i) => {
            assert(peer_ids(peers.update(i, peer)) =~= peer_ids(peers));
        },
        None => {
            assert(peer_ids(peers.push(peer)) =~= peer_ids(peers).push(peer.node_id));
        },
    }
}

/// Removing a peer keeps identifiers unique.
pub proof fn lemma_peers_without_unique(peers: Seq<PeerInfoView>, id: NodeIdView)
    requires
        peer_ids(peers).no_duplicates(),
    ensures
        peer_ids(peers_without(peers, id)).no_duplicates(),
{
    match position_of(peer_ids(peers), id) {
        Some(i) => {
            assert(peer_ids(peers.remove(i)) =~= peer_ids(peers).remove(i));
        },
        None => {},
    }
}

/// Storing an advertisement keeps origins unique.
pub proof fn lemma_lsas_with_unique(lsas: Seq<LsaView>, lsa: LsaView)
    requires
        origins(lsas).no_duplicates(),
    ensures
        origins(lsas_with(lsas, lsa)).no_duplicates(),
{
    match position_of(origins(lsas), lsa.node_id) {
        Some(i) => {
            assert(origins(lsas.update(i, lsa)) =~= origins(lsas));
        },
        None => {
            assert(origins(lsas.push(lsa)) =~= origins(lsas).push(lsa.node_id));
        },
    }
}

/// Configured peers have unique identifiers.
pub proof fn lemma_configured_peers_unique(configs: Seq<PeerConfigView>)
    ensures
        peer_ids(configured_peers(configs)).no_duplicates(),
    decreases configs.len(),
{
    if configs.len() > 0 {
        lemma_configured_peers_unique(configs.drop_last());
        lemma_peers_with_unique(
            configured_peers(configs.drop_last()),
            configured_peer(configs.last()),
        );
    }
}

/// The model of a routing table.
pub struct RoutingTableView {
    /// The direct peers.
    pub peers: Seq<PeerInfoView>,
    /// The link-state database: the latest advertisement of each origin.
    pub lsas: Seq<LsaView>,
    /// The sequence number of the last advertisement that this node made.
    pub own_sequence: u64,
}

impl RoutingTableView {
    /// No peer and no origin occurs twice.
    pub open spec fn well_formed(self) -> bool {
        peer_ids(self.peers).no_duplicates() && origins(self.lsas).no_duplicates()
    }

    /// The peer with identifier `id`, if there is one.
    pub open spec fn peer(self, id: NodeIdView) -> Option<PeerInfoView> {
        find_peer(self.peers, id)
    }

    /// The stored advertisement of `origin`, if there is one.
    pub open spec fn lsa(self, origin: NodeIdView) -> Option<LsaView> {
        find_lsa(self.lsas, origin)
    }

    /// The empty table.
    pub open spec fn empty() -> RoutingTableView {
        RoutingTableView { peers: Seq::empty(), lsas: Seq::empty(), own_sequence: 0 }
    }

    /// The table that a list of configuration entries starts as.
    pub open spec fn configured(configs: Seq<PeerConfigView>) -> RoutingTableView {
        RoutingTableView { peers: configured_peers(configs), lsas: Seq::empty(), own_sequence: 0 }
    }

    /// The table after `peer` was added or replaced.
    pub open spec fn with_peer(self, peer: PeerInfoView) -> RoutingTableView {
        RoutingTableView { peers: peers_with(self.peers, peer), ..self }
    }

    /// The table without the peer `id`.
    pub open spec fn without_peer(self, id: NodeIdView) -> RoutingTableView {
        RoutingTableView { peers: peers_without(self.peers, id), ..self }
    }

    /// The table after the status of peer `id` was set at time `now`;
    /// the same table if there is no such peer.
    pub open spec fn with_peer_status(
        self,
        id: NodeIdView,
        status: PeerStatus,
        now: Timestamp,
    ) -> RoutingTableView {
        match position_of(peer_ids(self.peers), id) {
            Some(i) => RoutingTableView {
                peers: self.peers.update(i, peer_with_status(self.peers[i], status, now)),
                ..self
            },
            None => self,
        }
    }

    /// The table after peer `id` was seen at time `now`; the same table if
    /// there is no such peer.
    pub open spec fn with_peer_seen(self, id: NodeIdView, now: Timestamp) -> RoutingTableView {
        match position_of(peer_ids(self.peers), id) {
            Some(i) => RoutingTableView {
                peers: self.peers.update(i, peer_seen(self.peers[i], now)),
                ..self
            },
            None => self,
        }
    }

    /// The table after every peer was marked connected at time `now`.
    pub open spec fn with_all_connected(self, now: Timestamp) -> RoutingTableView {
        RoutingTableView {
            peers: Seq::new(
                self.peers.len(),
                |i: int| peer_with_status(self.peers[i], PeerStatus::Connected, now),
            ),
            ..self
        }
    }

    /// The connected peers, in table order.
    pub open spec fn connected_peers(self) -> Seq<PeerInfoView> {
        connected_of(self.peers)
    }

    /// The identifiers of the connected peers, in table order.
    pub open spec fn connected_ids(self) -> Seq<NodeIdView> {
        peer_ids(connected_of(self.peers))
    }

    /// The advertisement that node `node_id` makes from this table at
    /// time `now`: its neighbors are the connected peers, its sequence
    /// number is one more than the last.
    pub open spec fn advertisement(self, node_id: NodeIdView, now: Timestamp) -> LsaView {
        LsaView {
            node_id,
            neighbors: self.connected_ids(),
            sequence: (self.own_sequence + 1) as u64,
            timestamp: Some(now),
        }
    }

    /// The table after it made an advertisement.
    pub open spec fn after_advertising(self) -> RoutingTableView {
        RoutingTableView { own_sequence: (self.own_sequence + 1) as u64, ..self }
    }

    /// Whether the table takes `lsa`: it does if it holds nothing of that
    /// origin, or something with a strictly lower sequence number.
    pub open spec fn accepts(self, lsa: LsaView) -> bool {
        match self.lsa(lsa.node_id) {
            Some(stored) => lsa.sequence > stored.sequence,
            None => true,
        }
    }

    /// The table after it stored `lsa`.
    pub open spec fn with_lsa(self, lsa: LsaView) -> RoutingTableView {
        RoutingTableView { lsas: lsas_with(self.lsas, lsa), ..self }
    }

    /// The table after `lsa` was offered to it: stored if accepted, and
    /// else nothing changes.
    pub open spec fn offered(self, lsa: LsaView) -> RoutingTableView {
        if self.accepts(lsa) {
            self.with_lsa(lsa)
        } else {
            self
        }
    }

    /// The peer `id` is a direct peer and connected.
    pub open spec fn has_connected_peer(self, id: NodeIdView) -> bool {
        self.peer(id) matches Some(peer) && peer.status == PeerStatus::Connected
    }

    /// Some stored advertisement lists `id` as a neighbor.
    pub open spec fn is_advertised(self, id: NodeIdView) -> bool {
        exists|j: int| 0 <= j < self.lsas.len() && (#[trigger] self.lsas[j]).neighbors.contains(id)
    }

    /// The graph that routes from `source` are computed over.
    pub open spec fn topology(self, source: NodeIdView) -> Topology {
        Topology { source, direct: self.connected_ids(), lsas: self.lsas }
    }
}

/// One operation on a routing table.
pub enum TableOp {
    /// `add_peer` with this peer.
    AddPeer(PeerInfoView),
    /// `remove_peer` of this identifier.
    RemovePeer(NodeIdView),
    /// `update_peer_status` of this peer to this status at this time.
    UpdateStatus(NodeIdView, PeerStatus, Timestamp),
    /// `mark_peer_seen` for this peer at this time.
    MarkSeen(NodeIdView, Timestamp),
    /// `mark_all_connected` at this time.
    MarkAllConnected(Timestamp),
    /// `generate_lsa` for this node at this time.
    GenerateLsa(NodeIdView, Timestamp),
    /// `process_lsa` of this advertisement.
    ProcessLsa(LsaView),
}

impl RoutingTableView {
    /// The table after `op`.
    pub open spec fn apply(self, op: TableOp) -> RoutingTableView {
        match op {
            TableOp::AddPeer(peer) => self.with_peer(peer),
            TableOp::RemovePeer(id) => self.without_peer(id),
            TableOp::UpdateStatus(id, status, now) => self.with_peer_status(id, status, now),
            TableOp::MarkSeen(id, now) => self.with_peer_seen(id, now),
            TableOp::MarkAllConnected(now) => self.with_all_connected(now),
            TableOp::GenerateLsa(_, _) => self.after_advertising(),
            TableOp::ProcessLsa(lsa) => self.offered(lsa),
        }
    }

    /// The table after the operations `ops`, in order.
    pub open spec fn apply_all(self, ops: Seq<TableOp>) -> RoutingTableView
        decreases ops.len(),
    {
        if ops.len() == 0 {
            self
        } else {
            self.apply_all(ops.drop_last()).apply(ops.last())
        }
    }

    /// The table in which operation number `k` of `ops` takes place.
    pub open spec fn before_op(self, ops: Seq<TableOp>, k: int) -> RoutingTableView {
        self.apply_all(ops.take(k))
    }
}

/// Every connected peer of `peers`, and nothing else, is among
/// `connected_of(peers)`.
pub proof fn lemma_connected_of_holds(peers: Seq<PeerInfoView>, peer: PeerInfoView)
    ensures
        connected_of(peers).contains(peer) <==> peers.contains(peer) && peer.status
            == PeerStatus::Connected,
    decreases peers.len(),
{
    if peers.len() > 0 {
        let front = peers.drop_last();
        lemma_connected_of_holds(front, peer);
        if peers.contains(peer) {
            let i = choose|i: int| 0 <= i < peers.len() && peers[i] == peer;
            if i < front.len() {
                assert(front[i] == peer);
            }
        }
        if front.contains(peer) {
            let i = choose|i: int| 0 <= i < front.len() && front[i] == peer;
            assert(peers[i] == peer);
        }
        if peers.last().status == PeerStatus::Connected {
            let nearer = connected_of(front);
            if nearer.push(peers.last()).contains(peer) {
                let i = choose|i: int|
                    0 <= i < nearer.push(peers.last()).len() && nearer.push(peers.last())[i]
                        == peer;
                if i < nearer.len() {
                    assert(nearer[i] == peer);
                }
            }
            if nearer.contains(peer) {
                let i = choose|i: int| 0 <= i < nearer.len() && nearer[i] == peer;
                assert(nearer.push(peers.last())[i] == peer);
            }
            if peer == peers.last() {
                assert(nearer.push(peers.last())[nearer.len() as int] == peer);
                assert(peers[peers.len() - 1] == peer);
            }
        }
    }
}

/// Every operation keeps a table well formed.
pub proof fn lemma_apply_well_formed(table: RoutingTableView, op: TableOp)
    requires
        table.well_formed(),
    ensures
        table.apply(op).well_formed(),
{
    match op {
        TableOp::AddPeer(peer) => {
            lemma_peers_with_unique(table.peers, peer);
        },
        TableOp::RemovePeer(id) => {
            lemma_peers_without_unique(table.peers, id);
        },
        TableOp::ProcessLsa(lsa) => {
            lemma_lsas_with_unique(table.lsas, lsa);
        },
        _ => {
            lemma_peers_stay(table, op);
        },
    }
}

/// Only adding and removing a peer change which peers a table has: every
/// other operation leaves the identifiers of the peers, and their order,
/// as they are, and the link-state database is touched by nothing but an
/// offered advertisement.
pub proof fn lemma_peers_stay(table: RoutingTableView, op: TableOp)
    ensures
        !(op is AddPeer) && !(op is RemovePeer) ==> peer_ids(table.apply(op).peers) == peer_ids(
            table.peers,
        ),
        !(op is ProcessLsa) ==> table.apply(op).lsas == table.lsas,
        !(op is GenerateLsa) ==> table.apply(op).own_sequence == table.own_sequence,
{
    match op {
        TableOp::UpdateStatus(id, status, now) => {
            assert(peer_ids(table.with_peer_status(id, status, now).peers) =~= peer_ids(
                table.peers,
            ));
        },
        TableOp::MarkSeen(id, now) => {
            assert(peer_ids(table.with_peer_seen(id, now).peers) =~= peer_ids(table.peers));
        },
        TableOp::MarkAllConnected(now) => {
            assert(peer_ids(table.with_all_connected(now).peers) =~= peer_ids(table.peers));
        },
        _ => {},
    }
}

/// Every sequence of operations keeps a table well formed.
pub proof fn lemma_apply_all_well_formed(table: RoutingTableView, ops: Seq<TableOp>)
    requires
        table.well_formed(),
    ensures
        table.apply_all(ops).well_formed(),
    decreases ops.len(),
{
    if ops.len() > 0 {
        lemma_apply_all_well_formed(table, ops.drop_last());
        lemma_apply_well_formed(table.apply_all(ops.drop_last()), ops.last());
    }
}

/// The peer that `peer` becomes when every peer is marked connected at
/// time `now`.
pub open spec fn connected_at(peer: Option<PeerInfoView>, now: Timestamp) -> Option<PeerInfoView> {
    match peer {
        Some(p) => Some(peer_with_status(p, PeerStatus::Connected, now)),
        None => None,
    }
}

/// The peer that `peer` becomes when its status is set at time `now`.
pub open spec fn status_set(
    peer: Option<PeerInfoView>,
    status: PeerStatus,
    now: Timestamp,
) -> Option<PeerInfoView> {
    match peer {
        Some(p) => Some(peer_with_status(p, status, now)),
        None => None,
    }
}

/// The peer that `peer` becomes when it is seen at time `now`.
pub open spec fn seen_at(peer: Option<PeerInfoView>, now: Timestamp) -> Option<PeerInfoView> {
    match peer {
        Some(p) => Some(peer_seen(p, now)),
        None => None,
    }
}

/// After a peer was added, a lookup of its identifier finds it, and a
/// lookup of any other identifier finds what it found before.
pub proof fn lemma_with_peer_lookup(table: RoutingTableView, peer: PeerInfoView, id: NodeIdView)
    requires
        table.well_formed(),
    ensures
        table.with_peer(peer).peer(id) == if id == peer.node_id {
            Some(peer)
        } else {
            table.peer(id)
        },
{
    let before = peer_ids(table.peers);
    let after = peer_ids(table.with_peer(peer).peers);
    match position_of(before, peer.node_id) {
        Some(i) => {
            assert(after =~= before);
        },
        None => {
            assert(after =~= before.push(peer.node_id));
            lemma_position_after_push(before, peer.node_id, id);
        },
    }
}

/// After a peer was removed, a lookup of its identifier finds nothing,
/// and a lookup of any other identifier finds what it found before.
pub proof fn lemma_without_peer_lookup(table: RoutingTableView, gone: NodeIdView, id: NodeIdView)
    requires
        table.well_formed(),
    ensures
        table.without_peer(gone).peer(id) == if id == gone {
            None
        } else {
            table.peer(id)
        },
{
    let before = peer_ids(table.peers);
    let after = peer_ids(table.without_peer(gone).peers);
    match position_of(before, gone) {
        Some(i) => {
            assert(after =~= before.remove(i));
            lemma_position_after_remove(before, i, id);
        },
        None => {},
    }
}

/// After the status of a peer was set, a lookup of its identifier finds
/// the peer with the new status, and a lookup of any other identifier
/// finds what it found before.
pub proof fn lemma_with_peer_status_lookup(
    table: RoutingTableView,
    target: NodeIdView,
    status: PeerStatus,
    now: Timestamp,
    id: NodeIdView,
)
    requires
        table.well_formed(),
    ensures
        table.with_peer_status(target, status, now).peer(id) == if id == target {
            status_set(table.peer(id), status, now)
        } else {
            table.peer(id)
        },
{
    assert(peer_ids(table.with_peer_status(target, status, now).peers) =~= peer_ids(table.peers));
}

/// After a peer was seen, a lookup of its identifier finds the peer with
/// the new time, and a lookup of any other identifier finds what it found
/// before.
pub proof fn lemma_with_peer_seen_lookup(
    table: RoutingTableView,
    target: NodeIdView,
    now: Timestamp,
    id: NodeIdView,
)
    requires
        table.well_formed(),
    ensures
        table.with_peer_seen(target, now).peer(id) == if id == target {
            seen_at(table.peer(id), now)
        } else {
            table.peer(id)
        },
{
    assert(peer_ids(table.with_peer_seen(target, now).peers) =~= peer_ids(table.peers));
}

/// After every peer was marked connected, a lookup finds the peer it
/// found before, now connected.
pub proof fn lemma_with_all_connected_lookup(
    table: RoutingTableView,
    now: Timestamp,
    id: NodeIdView,
)
    requires
        table.well_formed(),
    ensures
        table.with_all_connected(now).peer(id) == connected_at(table.peer(id), now),
{
    assert(peer_ids(table.with_all_connected(now).peers) =~= peer_ids(table.peers));
}

/// The last entry of `configs` for the identifier `id`, if there is one.
pub open spec fn last_config_for(configs: Seq<PeerConfigView>, id: NodeIdView) -> Option<
    PeerConfigView,
>
    decreases configs.len(),
{
    if configs.len() == 0 {
        None
    } else if configs.last().node_id == id {
        Some(configs.last())
    } else {
        last_config_for(configs.drop_last(), id)
    }
}

/// The peer that a lookup of `id` finds in a table made from `configs`:
/// the one that the last entry for `id` starts as.
pub open spec fn configured_lookup(configs: Seq<PeerConfigView>, id: NodeIdView) -> Option<
    PeerInfoView,
> {
    match last_config_for(configs, id) {
        Some(config) => Some(configured_peer(config)),
        None => None,
    }
}

/// A lookup in a table made from configuration entries finds the peer
/// that the last entry for the identifier starts as.
pub proof fn lemma_configured_lookup(configs: Seq<PeerConfigView>, id: NodeIdView)
    ensures
        RoutingTableView::configured(configs).peer(id) == configured_lookup(configs, id),
    decreases configs.len(),
{
    if configs.len() > 0 {
        let front = RoutingTableView::configured(configs.drop_last());
        lemma_configured_lookup(configs.drop_last(), id);
        lemma_configured_peers_unique(configs.drop_last());
        lemma_with_peer_lookup(front, configured_peer(configs.last()), id);
        assert(front.with_peer(configured_peer(configs.last())).peers
            == RoutingTableView::configured(configs).peers);
    }
}

/// In a well-formed table a peer stands in the sequence of peers exactly
/// if a lookup of its identifier finds it.
pub proof fn lemma_peer_listed(table: RoutingTableView, peer: PeerInfoView)
    requires
        table.well_formed(),
    ensures
        table.peers.contains(peer) <==> table.peer(peer.node_id) == Some(peer),
{
    let ids = peer_ids(table.peers);
    if table.peers.contains(peer) {
        let i = choose|i: int| 0 <= i < table.peers.len() && table.peers[i] == peer;
        assert(ids[i] == peer.node_id);
        lemma_position_found(ids, peer.node_id, i);
    }
    if table.peer(peer.node_id) == Some(peer) {
        let i = ids.index_of(peer.node_id);
        assert(table.peers[i] == peer);
    }
}

/// In a well-formed table a peer stands among the connected peers
/// exactly if a lookup of its identifier finds it, and finds it
/// connected.
pub proof fn lemma_connected_peer_listed(table: RoutingTableView, peer: PeerInfoView)
    requires
        table.well_formed(),
    ensures
        table.connected_peers().contains(peer) <==> table.peer(peer.node_id) == Some(peer)
            && peer.status == PeerStatus::Connected,
{
    lemma_peer_listed(table, peer);
    lemma_connected_of_holds(table.peers, peer);
}

/// `op` offers an advertisement of `origin` to the table.
pub open spec fn offers(op: TableOp, origin: NodeIdView) -> bool {
    op matches TableOp::ProcessLsa(lsa) && lsa.node_id == origin
}

impl RoutingTableView {
    /// The table holds an advertisement of `origin` whose sequence number
    /// is `sequence` or higher.
    pub open spec fn holds_at_least(self, origin: NodeIdView, sequence: u64) -> bool {
        match self.lsa(origin) {
            Some(held) => sequence <= held.sequence,
            None => false,
        }
    }
}

/// After an advertisement was offered to a table, the table holds it for
/// its origin if it accepted it; what it holds for any other origin, and
/// for this origin after a refusal, is what it held before.
pub proof fn lemma_offered_lookup(table: RoutingTableView, lsa: LsaView, origin: NodeIdView)
    requires
        table.well_formed(),
    ensures
        table.offered(lsa).lsa(origin) == if origin == lsa.node_id && table.accepts(lsa) {
            Some(lsa)
        } else {
            table.lsa(origin)
        },
{
    if table.accepts(lsa) {
        let before = origins(table.lsas);
        let after = origins(table.offered(lsa).lsas);
        match position_of(before, lsa.node_id) {
            Some(i) => {
                assert(after =~= before);
            },
            None => {
                assert(after =~= before.push(lsa.node_id));
                lemma_position_after_push(before, lsa.node_id, origin);
            },
        }
    }
}

/// The link-state database keeps, for every origin, the advertisement
/// with the highest sequence number that was ever offered, whatever other
/// operations happen in between.
///
/// After any sequence of operations on a well-formed table: no
/// advertisement that was offered for `origin`, nor the one held at the
/// start, has a higher sequence number than the one held at the end; and
/// the one held at the end is either the one held at the start or an
/// offered one that was accepted when it came.
pub proof fn lemma_database_keeps_highest(
    start: RoutingTableView,
    ops: Seq<TableOp>,
    origin: NodeIdView,
)
    requires
        start.well_formed(),
    ensures
        start.apply_all(ops).well_formed(),
        forall|k: int|
            0 <= k < ops.len() && offers(#[trigger] ops[k], origin) ==> start.apply_all(
                ops,
            ).holds_at_least(origin, ops[k]->ProcessLsa_0.sequence),
        start.lsa(origin) matches Some(first) ==> start.apply_all(ops).holds_at_least(
            origin,
            first.sequence,
        ),
        start.apply_all(ops).lsa(origin) matches Some(held) ==> start.lsa(origin) == Some(held)
            || exists|k: int|
            0 <= k < ops.len() && #[trigger] ops[k] == TableOp::ProcessLsa(held)
                && start.before_op(ops, k).accepts(held),
    decreases ops.len(),
{
    lemma_apply_all_well_formed(start, ops);
    if ops.len() > 0 {
        let front = ops.drop_last();
        let mid = start.apply_all(front);
        let end = start.apply_all(ops);
        lemma_database_keeps_highest(start, front, origin);
        assert(ops.take(ops.len() - 1) =~= front);
        assert forall|k: int| 0 <= k < front.len() implies start.before_op(front, k)
            == start.before_op(ops, k) by {
            assert(front.take(k) =~= ops.take(k));
        }
        match ops.last() {
            TableOp::ProcessLsa(lsa) => {
                lemma_offered_lookup(mid, lsa, origin);
                if origin == lsa.node_id && mid.accepts(lsa) {
                    assert(ops[ops.len() - 1] == TableOp::ProcessLsa(lsa));
                    assert(start.before_op(ops, ops.len() - 1) == mid);
                }
            },
            _ => {
                assert(end.lsas == mid.lsas);
            },
        }
        assert forall|k: int|
            0 <= k < ops.len() && offers(#[trigger] ops[k], origin) implies end.holds_at_least(
            origin,
            ops[k]->ProcessLsa_0.sequence,
        ) by {
            if k < front.len() {
                assert(front[k] == ops[k]);
                assert(mid.holds_at_least(origin, front[k]->ProcessLsa_0.sequence));
            }
        }
        if end.lsa(origin) is Some && start.lsa(origin) != end.lsa(origin) {
            let held = end.lsa(origin).unwrap();
            if mid.lsa(origin) == Some(held) {
                let k = choose|k: int|
                    0 <= k < front.len() && #[trigger] front[k] == TableOp::ProcessLsa(held)
                        && start.before_op(front, k).accepts(held);
                assert(ops[k] == TableOp::ProcessLsa(held));
                assert(start.before_op(ops, k).accepts(held));
            }
        }
    }
}

/// The counter of own advertisements never goes down, and each
/// advertisement moves it up by one.
proof fn lemma_counter_grows(start: RoutingTableView, ops: Seq<TableOp>, k: int)
    requires
        0 <= k <= ops.len(),
        forall|i: int|
            0 <= i < ops.len() && #[trigger] ops[i] is GenerateLsa ==> start.before_op(
                ops,
                i,
            ).own_sequence < u64::MAX,
    ensures
        start.before_op(ops, k).own_sequence <= start.apply_all(ops).own_sequence,
        k < ops.len() && ops[k] is GenerateLsa ==> start.before_op(ops, k).own_sequence
            < start.apply_all(ops).own_sequence,
    decreases ops.len() - k,
{
    if k == ops.len() {
        assert(ops.take(k) =~= ops);
    } else {
        let front = ops.drop_last();
        assert(ops.take(ops.len() - 1) =~= front);
        assert forall|i: int| 0 <= i < front.len() implies start.before_op(front, i)
            == start.before_op(ops, i) by {
            assert(front.take(i) =~= ops.take(i));
        }
        assert forall|i: int|
            0 <= i < front.len() && #[trigger] front[i] is GenerateLsa implies start.before_op(
            front,
            i,
        ).own_sequence < u64::MAX by {
            assert(front[i] == ops[i]);
        }
        if k < front.len() {
            lemma_counter_grows(start, front, k);
            assert(front[k] == ops[k]);
        } else {
            assert(front.take(k) =~= front);
        }
        assert(ops[ops.len() - 1] == ops.last());
    }
}

/// The sequence numbers of a node's own advertisements increase
/// strictly, whatever other operations happen in between.
///
/// In any sequence of operations in which every `generate_lsa` finds the
/// counter below its maximum, the advertisement made by an earlier
/// `generate_lsa` has a lower sequence number than the one made by a
/// later `generate_lsa`.
pub proof fn lemma_own_sequences_increase(
    start: RoutingTableView,
    ops: Seq<TableOp>,
    earlier: int,
    later: int,
)
    requires
        0 <= earlier < later < ops.len(),
        forall|i: int|
            0 <= i < ops.len() && #[trigger] ops[i] is GenerateLsa ==> start.before_op(
                ops,
                i,
            ).own_sequence < u64::MAX,
        ops[earlier] matches TableOp::GenerateLsa(_, _),
        ops[later] matches TableOp::GenerateLsa(_, _),
    ensures
        ({
            let first = ops[earlier];
            let second = ops[later];
            start.before_op(ops, earlier).advertisement(
                first->GenerateLsa_0,
                first->GenerateLsa_1,
            ).sequence < start.before_op(ops, later).advertisement(
                second->GenerateLsa_0,
                second->GenerateLsa_1,
            ).sequence
        }),
{
    let upto = ops.take(later);
    assert forall|i: int|
        0 <= i < upto.len() && #[trigger] upto[i] is GenerateLsa implies start.before_op(
        upto,
        i,
    ).own_sequence < u64::MAX by {
        assert(upto[i] == ops[i]);
        assert(upto.take(i) =~= ops.take(i));
    }
    lemma_counter_grows(start, upto, earlier);
    assert(upto.take(earlier) =~= ops.take(earlier));
    assert(upto[earlier] == ops[earlier]);
}

/// In a well-formed table an advertisement stands in the database
/// exactly if a lookup of its origin finds it.
pub proof fn lemma_lsa_listed(table: RoutingTableView, lsa: LsaView)
    requires
        table.well_formed(),
    ensures
        table.lsas.contains(lsa) <==> table.lsa(lsa.node_id) == Some(lsa),
{
    let ids = origins(table.lsas);
    if table.lsas.contains(lsa) {
        let i = choose|i: int| 0 <= i < table.lsas.len() && table.lsas[i] == lsa;
        assert(ids[i] == lsa.node_id);
        lemma_position_found(ids, lsa.node_id, i);
    }
    if table.lsa(lsa.node_id) == Some(lsa) {
        let i = ids.index_of(lsa.node_id);
        assert(table.lsas[i] == lsa);
    }
}

/// The edges of the graph, said with lookups: an edge leads from the
/// source to each connected direct peer, and from the origin of each
/// stored advertisement to each neighbor that it lists.
pub proof fn lemma_edge_by_lookup(
    table: RoutingTableView,
    source: NodeIdView,
    from: NodeIdView,
    to: NodeIdView,
)
    requires
        table.well_formed(),
    ensures
        table.topology(source).edge(from, to) <==> (from == source && table.has_connected_peer(
            to,
        )) || (table.lsa(from) matches Some(lsa) && lsa.neighbors.contains(to)),
{
    let topo = table.topology(source);
    lemma_neighbors_are_connected(table, source, Timestamp { unix_seconds: 0 }, to);
    if topo.advertised(from, to) {
        let j = choose|j: int|
            0 <= j < topo.lsas.len() && (#[trigger] topo.lsas[j]).node_id == from
                && topo.lsas[j].neighbors.contains(to);
        assert(table.lsas.contains(table.lsas[j]));
        lemma_lsa_listed(table, table.lsas[j]);
    }
    if table.lsa(from) is Some && table.lsa(from).unwrap().neighbors.contains(to) {
        let lsa = table.lsa(from).unwrap();
        let j = origins(table.lsas).index_of(from);
        assert(topo.lsas[j].node_id == from);
    }
}

/// The neighbors of an advertisement are exactly the peers that are
/// connected when it is made; a peer that is disconnected or of unknown
/// status is never among them.
pub proof fn lemma_neighbors_are_connected(
    table: RoutingTableView,
    node_id: NodeIdView,
    now: Timestamp,
    neighbor: NodeIdView,
)
    requires
        table.well_formed(),
    ensures
        table.advertisement(node_id, now).neighbors.contains(neighbor)
            <==> table.has_connected_peer(neighbor),
{
    let listed = table.connected_ids();
    let connected = connected_of(table.peers);
    let ids = peer_ids(table.peers);
    if listed.contains(neighbor) {
        let k = choose|k: int| 0 <= k < listed.len() && listed[k] == neighbor;
        let peer = connected[k];
        assert(connected.contains(peer));
        lemma_connected_of_holds(table.peers, peer);
        let i = choose|i: int| 0 <= i < table.peers.len() && table.peers[i] == peer;
        assert(ids[i] == neighbor);
        lemma_position_found(ids, neighbor, i);
    }
    if table.peer(neighbor) is Some && table.peer(neighbor).unwrap().status
        == PeerStatus::Connected {
        let peer = table.peer(neighbor).unwrap();
        let i = ids.index_of(neighbor);
        assert(table.peers[i] == peer);
        assert(table.peers.contains(peer));
        lemma_connected_of_holds(table.peers, peer);
        let k = choose|k: int| 0 <= k < connected.len() && connected[k] == peer;
        assert(listed[k] == neighbor);
    }
}

} // verus!
