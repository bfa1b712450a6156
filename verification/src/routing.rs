//! The routing table: the direct peers of a gateway, its link-state
//! database, and the counter of its own advertisements.
//!
//! The table keeps peers and advertisements in the order in which their
//! identifiers first arrived; no identifier occurs twice. Every operation
//! is stated over the table's view, a `RoutingTableView`, whose functions
//! the module `model` defines.

use crate::config::{peer_configs_view, PeerConfig};
use crate::model::{
    configured_lookup, configured_peer, configured_peers, connected_at, connected_of, find_lsa,
    find_peer, lemma_configured_lookup, lemma_configured_peers_unique,
    lemma_connected_peer_listed, lemma_edge_by_lookup, lemma_lsas_with_unique,
    lemma_neighbors_are_connected, lemma_offered_lookup, lemma_peer_listed,
    lemma_peers_with_unique, lemma_peers_without_unique, lemma_position_absent,
    lemma_position_found, lemma_with_all_connected_lookup, lemma_with_peer_lookup,
    lemma_with_peer_seen_lookup, lemma_with_peer_status_lookup, lemma_without_peer_lookup,
    lsas_with, origins, peer_ids, peer_seen, peer_with_status, peers_with, position_of, seen_at,
    status_set, RoutingTableView,
};
use crate::node_id::{same_text, NodeIdView};
use crate::search::{
    closed_at, discovered, entries_view, entry_ok, find_entry, has_done, has_entry,
    lemma_chain_is_route, lemma_entries_grow, lemma_entry_is_node, lemma_search_closes,
    lemma_search_discovers, lemma_search_exhausted, lemma_search_starts, lemma_search_takes,
    marked_done, path_to, pick_next, search_inv, Entry, EntryView,
};
use crate::timestamp::Timestamp;
use crate::topology::Topology;
use crate::types::{
    lsas_view, peers_view, texts_view, LinkStateAdvertisement, PeerInfo, PeerInfoView,
    PeerStatus,
};
use vstd::prelude::*;

verus! {

/// The model of an optional peer.
pub open spec fn peer_option_view(peer: Option<PeerInfo>) -> Option<PeerInfoView> {
    match peer {
        Some(p) => Some(p@),
        None => None,
    }
}

/// The model of an optional path.
pub open spec fn path_option_view(path: Option<Vec<String>>) -> Option<Seq<NodeIdView>> {
    match path {
        Some(p) => Some(texts_view(p@)),
        None => None,
    }
}

/// Where the peer `node_id` stands in `peers`.
fn peer_slot(peers: &Vec<PeerInfo>, node_id: &str) -> (slot: Option<usize>)
    requires
        peer_ids(peers_view(peers@)).no_duplicates(),
    ensures
        match slot {
            Some(i) => i < peers.len() && position_of(peer_ids(peers_view(peers@)), node_id@)
                == Some(i as int),
            None => position_of(peer_ids(peers_view(peers@)), node_id@) is None,
        },
{
    let ghost ids = peer_ids(peers_view(peers@));
    let mut i: usize = 0;
    while i < peers.len()
        invariant
            i <= peers.len(),
            ids == peer_ids(peers_view(peers@)),
            ids.no_duplicates(),
            forall|j: int| 0 <= j < i ==> ids[j] != node_id@,
        decreases peers.len() - i,
    {
        if same_text(peers[i].node_id.as_str(), node_id) {
            proof {
                lemma_position_found(ids, node_id@, i as int);
            }
            return Some(i);
        }
        i += 1;
    }
    proof {
        lemma_position_absent(ids, node_id@);
    }
    None
}

/// Where the advertisement of `origin` stands in `lsas`.
fn lsa_slot(lsas: &Vec<LinkStateAdvertisement>, origin: &str) -> (slot: Option<usize>)
    requires
        origins(lsas_view(lsas@)).no_duplicates(),
    ensures
        match slot {
            Some(i) => i < lsas.len() && position_of(origins(lsas_view(lsas@)), origin@) == Some(
                i as int,
            ),
            None => position_of(origins(lsas_view(lsas@)), origin@) is None,
        },
{
    let ghost ids = origins(lsas_view(lsas@));
    let mut i: usize = 0;
    while i < lsas.len()
        invariant
            i <= lsas.len(),
            ids == origins(lsas_view(lsas@)),
            ids.no_duplicates(),
            forall|j: int| 0 <= j < i ==> ids[j] != origin@,
        decreases lsas.len() - i,
    {
        if same_text(lsas[i].node_id.as_str(), origin) {
            proof {
                lemma_position_found(ids, origin@, i as int);
            }
            return Some(i);
        }
        i += 1;
    }
    proof {
        lemma_position_absent(ids, origin@);
    }
    None
}

/// Adds `peer` to `peers`, or replaces the peer of the same identifier.
fn put_peer(peers: &mut Vec<PeerInfo>, peer: PeerInfo)
    requires
        peer_ids(peers_view(old(peers)@)).no_duplicates(),
    ensures
        peers_view(final(peers)@) == peers_with(peers_view(old(peers)@), peer@),
        peer_ids(peers_view(final(peers)@)).no_duplicates(),
{
    proof {
        lemma_peers_with_unique(peers_view(peers@), peer@);
    }
    match peer_slot(peers, peer.node_id.as_str()) {
        Some(i) => {
            peers[i] = peer;
            assert(peers_view(peers@) =~= peers_view(old(peers)@).update(i as int, peer@));
        },
        None => {
            peers.push(peer);
            assert(peers_view(peers@) =~= peers_view(old(peers)@).push(peer@));
        },
    }
}

/// Sets the status of the peer in slot `slot` at time `now`.
fn set_status(peers: &mut Vec<PeerInfo>, slot: usize, status: PeerStatus, now: Timestamp)
    requires
        slot < old(peers).len(),
    ensures
        peers_view(final(peers)@) == peers_view(old(peers)@).update(
            slot as int,
            peer_with_status(old(peers)@[slot as int]@, status, now),
        ),
        peer_ids(peers_view(final(peers)@)) == peer_ids(peers_view(old(peers)@)),
{
    peers[slot].status = status;
    if status == PeerStatus::Connected {
        peers[slot].last_seen = Some(now);
    }
    assert(peers_view(peers@) =~= peers_view(old(peers)@).update(
        slot as int,
        peer_with_status(old(peers)@[slot as int]@, status, now),
    ));
    assert(peer_ids(peers_view(peers@)) =~= peer_ids(peers_view(old(peers)@)));
}

/// Records that the peer in slot `slot` was seen at time `now`.
fn set_seen(peers: &mut Vec<PeerInfo>, slot: usize, now: Timestamp)
    requires
        slot < old(peers).len(),
    ensures
        peers_view(final(peers)@) == peers_view(old(peers)@).update(
            slot as int,
            peer_seen(old(peers)@[slot as int]@, now),
        ),
        peer_ids(peers_view(final(peers)@)) == peer_ids(peers_view(old(peers)@)),
{
    peers[slot].last_seen = Some(now);
    assert(peers_view(peers@) =~= peers_view(old(peers)@).update(
        slot as int,
        peer_seen(old(peers)@[slot as int]@, now),
    ));
    assert(peer_ids(peers_view(peers@)) =~= peer_ids(peers_view(old(peers)@)));
}

/// Stores `lsa` in `lsas`, in place of the advertisement of the same
/// origin if there is one.
fn put_lsa(lsas: &mut Vec<LinkStateAdvertisement>, lsa: LinkStateAdvertisement)
    requires
        origins(lsas_view(old(lsas)@)).no_duplicates(),
    ensures
        lsas_view(final(lsas)@) == lsas_with(lsas_view(old(lsas)@), lsa@),
        origins(lsas_view(final(lsas)@)).no_duplicates(),
{
    proof {
        lemma_lsas_with_unique(lsas_view(lsas@), lsa@);
    }
    match lsa_slot(lsas, lsa.node_id.as_str()) {
        Some(i) => {
            lsas[i] = lsa;
            assert(lsas_view(lsas@) =~= lsas_view(old(lsas)@).update(i as int, lsa@));
        },
        None => {
            lsas.push(lsa);
            assert(lsas_view(lsas@) =~= lsas_view(old(lsas)@).push(lsa@));
        },
    }
}

/// Marks every peer connected at time `now`.
fn connect_all(peers: &mut Vec<PeerInfo>, now: Timestamp)
    ensures
        peers_view(final(peers)@) == Seq::new(
            old(peers)@.len(),
            |i: int| peer_with_status(old(peers)@[i]@, PeerStatus::Connected, now),
        ),
        peer_ids(peers_view(final(peers)@)) == peer_ids(peers_view(old(peers)@)),
{
    let mut i: usize = 0;
    while i < peers.len()
        invariant
            i <= peers.len(),
            peers.len() == old(peers).len(),
            forall|j: int|
                0 <= j < i ==> (#[trigger] peers@[j])@ == peer_with_status(
                    old(peers)@[j]@,
                    PeerStatus::Connected,
                    now,
                ),
            forall|j: int| i <= j < peers.len() ==> (#[trigger] peers@[j])@ == old(peers)@[j]@,
        decreases peers.len() - i,
    {
        let ghost before = peers@;
        set_status(peers, i, PeerStatus::Connected, now);
        assert forall|j: int| 0 <= j < peers.len() && j != i implies (#[trigger] peers@[j])@
            == before[j]@ by {
            assert(peers_view(peers@)[j] == peers_view(before)[j]);
        }
        assert(peers_view(peers@)[i as int] == peer_with_status(
            before[i as int]@,
            PeerStatus::Connected,
            now,
        ));
        i += 1;
    }
    assert(peers_view(peers@) =~= Seq::new(
        old(peers)@.len(),
        |i: int| peer_with_status(old(peers)@[i]@, PeerStatus::Connected, now),
    ));
    assert(peer_ids(peers_view(peers@)) =~= peer_ids(peers_view(old(peers)@)));
}

/// Copies of all peers, in order.
fn copy_peers(peers: &Vec<PeerInfo>) -> (copy: Vec<PeerInfo>)
    ensures
        peers_view(copy@) == peers_view(peers@),
{
    let mut copy: Vec<PeerInfo> = Vec::new();
    let mut i: usize = 0;
    while i < peers.len()
        invariant
            i <= peers.len(),
            copy.len() == i,
            forall|j: int| 0 <= j < i ==> (#[trigger] copy@[j])@ == peers@[j]@,
        decreases peers.len() - i,
    {
        copy.push(peers[i].clone());
        i += 1;
    }
    assert(peers_view(copy@) =~= peers_view(peers@));
    copy
}

/// Copies of the connected peers, in order.
fn copy_connected(peers: &Vec<PeerInfo>) -> (copy: Vec<PeerInfo>)
    ensures
        peers_view(copy@) == connected_of(peers_view(peers@)),
{
    let mut copy: Vec<PeerInfo> = Vec::new();
    let mut i: usize = 0;
    assert(peers_view(peers@).take(0) =~= Seq::empty());
    while i < peers.len()
        invariant
            i <= peers.len(),
            peers_view(copy@) == connected_of(peers_view(peers@).take(i as int)),
        decreases peers.len() - i,
    {
        let ghost upto = peers_view(peers@).take(i + 1);
        assert(upto.drop_last() =~= peers_view(peers@).take(i as int));
        assert(upto.last() == peers@[i as int]@);
        if peers[i].status == PeerStatus::Connected {
            copy.push(peers[i].clone());
            assert(peers_view(copy@) =~= connected_of(upto.drop_last()).push(upto.last()));
        }
        i += 1;
    }
    assert(peers_view(peers@).take(peers.len() as int) =~= peers_view(peers@));
    copy
}

/// The identifiers of the connected peers, in order.
fn connected_peer_ids(peers: &Vec<PeerInfo>) -> (ids: Vec<String>)
    ensures
        texts_view(ids@) == peer_ids(connected_of(peers_view(peers@))),
{
    let mut ids: Vec<String> = Vec::new();
    let mut i: usize = 0;
    assert(peers_view(peers@).take(0) =~= Seq::empty());
    assert(texts_view(ids@) =~= peer_ids(Seq::empty()));
    while i < peers.len()
        invariant
            i <= peers.len(),
            texts_view(ids@) == peer_ids(connected_of(peers_view(peers@).take(i as int))),
        decreases peers.len() - i,
    {
        let ghost upto = peers_view(peers@).take(i + 1);
        assert(upto.drop_last() =~= peers_view(peers@).take(i as int));
        assert(upto.last() == peers@[i as int]@);
        if peers[i].status == PeerStatus::Connected {
            let ghost before = ids@;
            let ghost nearer = connected_of(upto.drop_last());
            ids.push(peers[i].node_id.clone());
            assert(texts_view(ids@) =~= texts_view(before).push(upto.last().node_id));
            assert(peer_ids(nearer.push(upto.last())) =~= peer_ids(nearer).push(
                upto.last().node_id,
            ));
        }
        i += 1;
    }
    assert(peers_view(peers@).take(peers.len() as int) =~= peers_view(peers@));
    ids
}

/// Copies of all advertisements, in order.
fn copy_lsas(lsas: &Vec<LinkStateAdvertisement>) -> (copy: Vec<LinkStateAdvertisement>)
    ensures
        lsas_view(copy@) == lsas_view(lsas@),
{
    let mut copy: Vec<LinkStateAdvertisement> = Vec::new();
    let mut i: usize = 0;
    while i < lsas.len()
        invariant
            i <= lsas.len(),
            copy.len() == i,
            forall|j: int| 0 <= j < i ==> (#[trigger] copy@[j])@ == lsas@[j]@,
        decreases lsas.len() - i,
    {
        copy.push(lsas[i].clone());
        i += 1;
    }
    assert(lsas_view(copy@) =~= lsas_view(lsas@));
    copy
}

/// The peers that the configuration entries `configs` start as.
fn peers_from_config(configs: Vec<PeerConfig>) -> (peers: Vec<PeerInfo>)
    ensures
        peers_view(peers@) == configured_peers(peer_configs_view(configs@)),
        peer_ids(peers_view(peers@)).no_duplicates(),
{
    let mut peers: Vec<PeerInfo> = Vec::new();
    let mut i: usize = 0;
    let ghost all = peer_configs_view(configs@);
    assert(all.take(0) =~= Seq::empty());
    assert(peers_view(peers@) =~= Seq::empty());
    while i < configs.len()
        invariant
            i <= configs.len(),
            all == peer_configs_view(configs@),
            peers_view(peers@) == configured_peers(all.take(i as int)),
            peer_ids(peers_view(peers@)).no_duplicates(),
        decreases configs.len() - i,
    {
        let ghost upto = all.take(i + 1);
        assert(upto.drop_last() =~= all.take(i as int));
        assert(upto.last() == configs@[i as int]@);
        let peer = PeerInfo {
            node_id: configs[i].node_id.clone(),
            address: configs[i].address.clone(),
            status: PeerStatus::Unknown,
            last_seen: None,
        };
        assert(peer@ == configured_peer(upto.last()));
        put_peer(&mut peers, peer);
        i += 1;
    }
    assert(all.take(configs.len() as int) =~= all);
    peers
}

/// Appends copies of `more` to `texts`.
fn append_texts(texts: &mut Vec<String>, more: &Vec<String>)
    ensures
        texts_view(final(texts)@) == texts_view(old(texts)@) + texts_view(more@),
{
    let mut i: usize = 0;
    assert(texts_view(texts@) =~= texts_view(old(texts)@) + texts_view(more@).take(0));
    while i < more.len()
        invariant
            i <= more.len(),
            texts_view(texts@) == texts_view(old(texts)@) + texts_view(more@).take(i as int),
        decreases more.len() - i,
    {
        let ghost before = texts@;
        texts.push(more[i].clone());
        assert(texts_view(texts@) =~= texts_view(before).push(more@[i as int]@));
        assert(texts_view(more@).take(i + 1) =~= texts_view(more@).take(i as int).push(
            more@[i as int]@,
        ));
        assert(texts_view(texts@) =~= texts_view(old(texts)@) + texts_view(more@).take(i + 1));
        i += 1;
    }
    assert(texts_view(more@).take(more.len() as int) =~= texts_view(more@));
}

/// The successors of `node` in the graph seen from `source`: the
/// connected direct peers if `node` is the source, and the neighbors
/// that `node` advertises.
fn successors(
    direct: &Vec<String>,
    lsas: &Vec<LinkStateAdvertisement>,
    source: &str,
    node: &str,
) -> (out: Vec<String>)
    requires
        origins(lsas_view(lsas@)).no_duplicates(),
    ensures
        forall|to: NodeIdView|
            texts_view(out@).contains(to) <==> #[trigger] (Topology {
                source: source@,
                direct: texts_view(direct@),
                lsas: lsas_view(lsas@),
            }).edge(node@, to),
{
    let ghost topo = Topology {
        source: source@,
        direct: texts_view(direct@),
        lsas: lsas_view(lsas@),
    };
    let mut out: Vec<String> = Vec::new();
    assert(texts_view(out@) =~= Seq::empty());
    if same_text(node, source) {
        append_texts(&mut out, direct);
    }
    let ghost first = texts_view(out@);
    assert(first =~= if node@ == source@ {
        texts_view(direct@)
    } else {
        Seq::empty()
    });
    match lsa_slot(lsas, node) {
        Some(j) => {
            append_texts(&mut out, &lsas[j].neighbors);
            assert forall|to: NodeIdView| texts_view(out@).contains(to) <==> #[trigger] topo.edge(
                node@,
                to,
            ) by {
                let listed = lsas_view(lsas@)[j as int].neighbors;
                assert(texts_view(out@) == first + listed);
                if texts_view(out@).contains(to) {
                    let k = choose|k: int|
                        0 <= k < texts_view(out@).len() && texts_view(out@)[k] == to;
                    if k < first.len() {
                        assert(first[k] == to);
                    } else {
                        assert(listed[k - first.len()] == to);
                        assert(topo.lsas[j as int].node_id == node@);
                    }
                }
                if topo.edge(node@, to) {
                    if node@ == source@ && topo.direct.contains(to) {
                        let k = choose|k: int| 0 <= k < first.len() && first[k] == to;
                        assert(texts_view(out@)[k] == to);
                    } else {
                        let other = choose|other: int|
                            0 <= other < topo.lsas.len() && (#[trigger] topo.lsas[other]).node_id
                                == node@ && topo.lsas[other].neighbors.contains(to);
                        assert(origins(topo.lsas)[other] == node@);
                        assert(origins(topo.lsas)[j as int] == node@);
                        assert(other == j);
                        let k = choose|k: int| 0 <= k < listed.len() && listed[k] == to;
                        assert(texts_view(out@)[first.len() + k] == to);
                    }
                }
            }
        },
        None => {
            assert forall|to: NodeIdView| texts_view(out@).contains(to) <==> #[trigger] topo.edge(
                node@,
                to,
            ) by {
                if topo.advertised(node@, to) {
                    let other = choose|other: int|
                        0 <= other < topo.lsas.len() && (#[trigger] topo.lsas[other]).node_id
                            == node@ && topo.lsas[other].neighbors.contains(to);
                    assert(origins(topo.lsas)[other] == node@);
                    assert(origins(topo.lsas).contains(node@));
                }
            }
        },
    }
    out
}

/// The routing table of a gateway.
///
/// The table takes no lock: a caller that shares it among tasks guards it
/// with a lock of its own. Every table is well formed, see
/// `RoutingTableView::well_formed`. A method that changes one of the
/// vectors takes it out of the table first and puts it back when the change
/// is complete, so the table is well formed at every step in between.
pub struct RoutingTable {
    peers: Vec<PeerInfo>,
    lsa_database: Vec<LinkStateAdvertisement>,
    own_lsa_sequence: u64,
}

impl View for RoutingTable {
    type V = RoutingTableView;

    closed spec fn view(&self) -> RoutingTableView {
        RoutingTableView {
            peers: peers_view(self.peers@),
            lsas: lsas_view(self.lsa_database@),
            own_sequence: self.own_lsa_sequence,
        }
    }
}

impl Default for RoutingTable {
    fn default() -> (table: Self)
        ensures
            table@ == RoutingTableView::empty(),
            table@.well_formed(),
    {
        RoutingTable::new()
    }
}

impl RoutingTable {
    #[verifier::type_invariant]
    spec fn inv(&self) -> bool {
        self@.well_formed()
    }

    /// Tells the verifier that this table is well formed, as every table
    /// is. Does nothing when it runs.
    pub fn note_well_formed(&self)
        ensures
            self@.well_formed(),
    {
        proof {
            use_type_invariant(self);
        }
    }

    /// Creates an empty routing table.
    pub fn new() -> (table: Self)
        ensures
            table@ == RoutingTableView::empty(),
            table@.well_formed(),
    {
        let table = RoutingTable {
            peers: Vec::new(),
            lsa_database: Vec::new(),
            own_lsa_sequence: 0,
        };
        assert(table@.peers =~= Seq::empty());
        assert(table@.lsas =~= Seq::empty());
        table
    }

    /// Adds a peer, or replaces the peer of the same identifier.
    pub fn add_peer(&mut self, peer: PeerInfo)
        ensures
            final(self)@ == old(self)@.with_peer(peer@),
            forall|id: NodeIdView| #[trigger]
                find_peer(final(self)@.peers, id) == if id == peer@.node_id {
                    Some(peer@)
                } else {
                    find_peer(old(self)@.peers, id)
                },
    {
        proof {
            use_type_invariant(&*self);
            assert forall|id: NodeIdView| #[trigger]
                find_peer(old(self)@.with_peer(peer@).peers, id) == if id == peer@.node_id {
                    Some(peer@)
                } else {
                    find_peer(old(self)@.peers, id)
                } by {
                lemma_with_peer_lookup(old(self)@, peer@, id);
            }
        }
        let mut peers: Vec<PeerInfo> = Vec::new();
        std::mem::swap(&mut self.peers, &mut peers);
        put_peer(&mut peers, peer);
        std::mem::swap(&mut self.peers, &mut peers);
    }

    /// Information about one peer.
    pub fn get_peer(&self, node_id: &str) -> (peer: Option<PeerInfo>)
        ensures
            peer_option_view(peer) == self@.peer(node_id@),
    {
        proof {
            use_type_invariant(self);
        }
        match peer_slot(&self.peers, node_id) {
            Some(i) => Some(self.peers[i].clone()),
            None => None,
        }
    }

    /// The number of direct peers.
    pub fn peer_count(&self) -> (count: usize)
        ensures
            count == self@.peers.len(),
    {
        self.peers.len()
    }

    /// Creates the table that a gateway starts with: the configured peers,
    /// each with status unknown, and an empty link-state database.
    pub fn from_config(peer_configs: Vec<PeerConfig>) -> (table: Self)
        ensures
            table@ == RoutingTableView::configured(peer_configs_view(peer_configs@)),
            table@.well_formed(),
            forall|id: NodeIdView| #[trigger]
                find_peer(table@.peers, id) == configured_lookup(
                    peer_configs_view(peer_configs@),
                    id,
                ),
    {
        proof {
            lemma_configured_peers_unique(peer_configs_view(peer_configs@));
            assert forall|id: NodeIdView| #[trigger]
                find_peer(RoutingTableView::configured(peer_configs_view(peer_configs@)).peers, id)
                    == configured_lookup(peer_configs_view(peer_configs@), id) by {
                lemma_configured_lookup(peer_configs_view(peer_configs@), id);
            }
        }
        let table = RoutingTable {
            peers: peers_from_config(peer_configs),
            lsa_database: Vec::new(),
            own_lsa_sequence: 0,
        };
        assert(table@.lsas =~= Seq::empty());
        table
    }

    /// Marks every peer connected, last seen at time `now`.
    pub fn mark_all_connected_at(&mut self, now: Timestamp)
        ensures
            final(self)@ == old(self)@.with_all_connected(now),
            forall|id: NodeIdView| #[trigger]
                find_peer(final(self)@.peers, id) == connected_at(
                    find_peer(old(self)@.peers, id),
                    now,
                ),
    {
        proof {
            use_type_invariant(&*self);
            assert forall|id: NodeIdView| #[trigger]
                find_peer(old(self)@.with_all_connected(now).peers, id) == connected_at(
                    find_peer(old(self)@.peers, id),
                    now,
                ) by {
                lemma_with_all_connected_lookup(old(self)@, now, id);
            }
        }
        let mut peers: Vec<PeerInfo> = Vec::new();
        std::mem::swap(&mut self.peers, &mut peers);
        connect_all(&mut peers, now);
        std::mem::swap(&mut self.peers, &mut peers);
        assert(self@.peers =~= old(self)@.with_all_connected(now).peers);
    }

    /// Marks every peer connected, last seen at the time of the call.
    pub fn mark_all_connected(&mut self)
        ensures
            exists|now: Timestamp|
                {
                    &&& final(self)@ == #[trigger] old(self)@.with_all_connected(now)
                    &&& forall|id: NodeIdView| #[trigger]
                        find_peer(final(self)@.peers, id) == connected_at(
                            find_peer(old(self)@.peers, id),
                            now,
                        )
                },
    {
        let now = Timestamp::now();
        self.mark_all_connected_at(now);
    }

    /// Sets the status of the peer `node_id` at time `now`. A peer that
    /// becomes connected was last seen at `now`. Nothing changes if there
    /// is no such peer.
    pub fn update_peer_status_at(&mut self, node_id: &str, status: PeerStatus, now: Timestamp)
        ensures
            final(self)@ == old(self)@.with_peer_status(node_id@, status, now),
            forall|id: NodeIdView| #[trigger]
                find_peer(final(self)@.peers, id) == if id == node_id@ {
                    status_set(find_peer(old(self)@.peers, id), status, now)
                } else {
                    find_peer(old(self)@.peers, id)
                },
    {
        proof {
            use_type_invariant(&*self);
            assert forall|id: NodeIdView| #[trigger]
                find_peer(old(self)@.with_peer_status(node_id@, status, now).peers, id) == if id
                    == node_id@ {
                    status_set(find_peer(old(self)@.peers, id), status, now)
                } else {
                    find_peer(old(self)@.peers, id)
                } by {
                lemma_with_peer_status_lookup(old(self)@, node_id@, status, now, id);
            }
        }
        match peer_slot(&self.peers, node_id) {
            Some(i) => {
                let mut peers: Vec<PeerInfo> = Vec::new();
                std::mem::swap(&mut self.peers, &mut peers);
                set_status(&mut peers, i, status, now);
                std::mem::swap(&mut self.peers, &mut peers);
            },
            None => {},
        }
    }

    /// Sets the status of the peer `node_id`; the time of the call is the
    /// time at which a peer that becomes connected was last seen.
    pub fn update_peer_status(&mut self, node_id: &str, status: PeerStatus)
        ensures
            exists|now: Timestamp|
                {
                    &&& final(self)@ == #[trigger] old(self)@.with_peer_status(
                        node_id@,
                        status,
                        now,
                    )
                    &&& forall|id: NodeIdView| #[trigger]
                        find_peer(final(self)@.peers, id) == if id == node_id@ {
                            status_set(find_peer(old(self)@.peers, id), status, now)
                        } else {
                            find_peer(old(self)@.peers, id)
                        }
                },
    {
        let now = Timestamp::now();
        self.update_peer_status_at(node_id, status, now);
    }

    /// Records that the peer `node_id` was seen at time `now`. Nothing
    /// changes if there is no such peer.
    pub fn mark_peer_seen_at(&mut self, node_id: &str, now: Timestamp)
        ensures
            final(self)@ == old(self)@.with_peer_seen(node_id@, now),
            forall|id: NodeIdView| #[trigger]
                find_peer(final(self)@.peers, id) == if id == node_id@ {
                    seen_at(find_peer(old(self)@.peers, id), now)
                } else {
                    find_peer(old(self)@.peers, id)
                },
    {
        proof {
            use_type_invariant(&*self);
            assert forall|id: NodeIdView| #[trigger]
                find_peer(old(self)@.with_peer_seen(node_id@, now).peers, id) == if id == node_id@ {
                    seen_at(find_peer(old(self)@.peers, id), now)
                } else {
                    find_peer(old(self)@.peers, id)
                } by {
                lemma_with_peer_seen_lookup(old(self)@, node_id@, now, id);
            }
        }
        match peer_slot(&self.peers, node_id) {
            Some(i) => {
                let mut peers: Vec<PeerInfo> = Vec::new();
                std::mem::swap(&mut self.peers, &mut peers);
                set_seen(&mut peers, i, now);
                std::mem::swap(&mut self.peers, &mut peers);
            },
            None => {},
        }
    }

    /// Records that the peer `node_id` was seen at the time of the call.
    pub fn mark_peer_seen(&mut self, node_id: &str)
        ensures
            exists|now: Timestamp|
                {
                    &&& final(self)@ == #[trigger] old(self)@.with_peer_seen(node_id@, now)
                    &&& forall|id: NodeIdView| #[trigger]
                        find_peer(final(self)@.peers, id) == if id == node_id@ {
                            seen_at(find_peer(old(self)@.peers, id), now)
                        } else {
                            find_peer(old(self)@.peers, id)
                        }
                },
    {
        let now = Timestamp::now();
        self.mark_peer_seen_at(node_id, now);
    }

    /// All peers, in table order.
    pub fn get_all_peers(&self) -> (peers: Vec<PeerInfo>)
        ensures
            peers_view(peers@) == self@.peers,
            forall|peer: PeerInfoView|
                #[trigger] peers_view(peers@).contains(peer) <==> self@.peer(peer.node_id) == Some(
                    peer,
                ),
    {
        let peers = copy_peers(&self.peers);
        proof {
            use_type_invariant(self);
            assert forall|peer: PeerInfoView|
                #[trigger] peers_view(peers@).contains(peer) <==> self@.peer(peer.node_id) == Some(
                    peer,
                ) by {
                lemma_peer_listed(self@, peer);
            }
        }
        peers
    }

    /// The connected peers, in table order.
    pub fn get_connected_peers(&self) -> (peers: Vec<PeerInfo>)
        ensures
            peers_view(peers@) == self@.connected_peers(),
            forall|peer: PeerInfoView|
                #[trigger] peers_view(peers@).contains(peer) <==> self@.peer(peer.node_id) == Some(
                    peer,
                ) && peer.status == PeerStatus::Connected,
    {
        let peers = copy_connected(&self.peers);
        proof {
            use_type_invariant(self);
            assert forall|peer: PeerInfoView|
                #[trigger] peers_view(peers@).contains(peer) <==> self@.peer(peer.node_id) == Some(
                    peer,
                ) && peer.status == PeerStatus::Connected by {
                lemma_connected_peer_listed(self@, peer);
            }
        }
        peers
    }

    /// Removes the peer `node_id` and returns it, if there is one.
    pub fn remove_peer(&mut self, node_id: &str) -> (removed: Option<PeerInfo>)
        ensures
            peer_option_view(removed) == old(self)@.peer(node_id@),
            final(self)@ == old(self)@.without_peer(node_id@),
            forall|id: NodeIdView| #[trigger]
                find_peer(final(self)@.peers, id) == if id == node_id@ {
                    None
                } else {
                    find_peer(old(self)@.peers, id)
                },
    {
        proof {
            use_type_invariant(&*self);
            lemma_peers_without_unique(self@.peers, node_id@);
            assert forall|id: NodeIdView| #[trigger]
                find_peer(old(self)@.without_peer(node_id@).peers, id) == if id == node_id@ {
                    None
                } else {
                    find_peer(old(self)@.peers, id)
                } by {
                lemma_without_peer_lookup(old(self)@, node_id@, id);
            }
        }
        match peer_slot(&self.peers, node_id) {
            Some(i) => {
                let mut peers: Vec<PeerInfo> = Vec::new();
                std::mem::swap(&mut self.peers, &mut peers);
                let removed = peers.remove(i);
                assert(peers_view(peers@) =~= old(self)@.peers.remove(i as int));
                std::mem::swap(&mut self.peers, &mut peers);
                Some(removed)
            },
            None => None,
        }
    }

    /// The sequence number of the last advertisement that this node made.
    pub fn own_sequence(&self) -> (sequence: u64)
        ensures
            sequence == self@.own_sequence,
    {
        self.own_lsa_sequence
    }

    /// Makes the next advertisement of node `node_id`, stamped `now`: it
    /// lists the connected peers and carries the next sequence number.
    pub fn generate_lsa_at(&mut self, node_id: &str, now: Timestamp) -> (lsa:
        LinkStateAdvertisement)
        requires
            old(self)@.own_sequence < u64::MAX,
        ensures
            lsa@ == old(self)@.advertisement(node_id@, now),
            final(self)@ == old(self)@.after_advertising(),
            lsa.sequence == old(self)@.own_sequence + 1,
            final(self)@.own_sequence == lsa.sequence,
            forall|id: NodeIdView|
                #[trigger] lsa@.neighbors.contains(id) <==> old(self)@.has_connected_peer(id),
    {
        proof {
            use_type_invariant(&*self);
            assert forall|id: NodeIdView|
                #[trigger] old(self)@.advertisement(node_id@, now).neighbors.contains(id) <==> old(
                    self,
                )@.has_connected_peer(id) by {
                lemma_neighbors_are_connected(old(self)@, node_id@, now, id);
            }
        }
        self.own_lsa_sequence = self.own_lsa_sequence + 1;
        LinkStateAdvertisement {
            node_id: node_id.to_string(),
            neighbors: connected_peer_ids(&self.peers),
            sequence: self.own_lsa_sequence,
            timestamp: Some(now),
        }
    }

    /// Makes the next advertisement of node `node_id`, stamped with the
    /// time of the call.
    pub fn generate_lsa(&mut self, node_id: &str) -> (lsa: LinkStateAdvertisement)
        requires
            old(self)@.own_sequence < u64::MAX,
        ensures
            exists|now: Timestamp| lsa@ == #[trigger] old(self)@.advertisement(node_id@, now),
            final(self)@ == old(self)@.after_advertising(),
            lsa@.node_id == node_id@,
            lsa.sequence == old(self)@.own_sequence + 1,
            final(self)@.own_sequence == lsa.sequence,
            lsa.timestamp is Some,
            forall|id: NodeIdView|
                #[trigger] lsa@.neighbors.contains(id) <==> old(self)@.has_connected_peer(id),
    {
        let now = Timestamp::now();
        self.generate_lsa_at(node_id, now)
    }

    /// Offers a received advertisement to the link-state database.
    ///
    /// The advertisement is stored, and `true` returned, if the database
    /// holds nothing of its origin or something with a strictly lower
    /// sequence number. Otherwise nothing changes and `false` is
    /// returned.
    pub fn process_lsa(&mut self, lsa: LinkStateAdvertisement) -> (accepted: bool)
        ensures
            accepted == old(self)@.accepts(lsa@),
            final(self)@ == old(self)@.offered(lsa@),
            forall|origin: NodeIdView| #[trigger]
                find_lsa(final(self)@.lsas, origin) == if origin == lsa@.node_id && accepted {
                    Some(lsa@)
                } else {
                    find_lsa(old(self)@.lsas, origin)
                },
    {
        proof {
            use_type_invariant(&*self);
            assert forall|origin: NodeIdView| #[trigger]
                find_lsa(old(self)@.offered(lsa@).lsas, origin) == if origin == lsa@.node_id && old(
                    self,
                )@.accepts(lsa@) {
                    Some(lsa@)
                } else {
                    find_lsa(old(self)@.lsas, origin)
                } by {
                lemma_offered_lookup(old(self)@, lsa@, origin);
            }
        }
        match lsa_slot(&self.lsa_database, lsa.node_id.as_str()) {
            Some(i) => {
                if lsa.sequence <= self.lsa_database[i].sequence {
                    return false;
                }
            },
            None => {},
        }
        let mut lsas: Vec<LinkStateAdvertisement> = Vec::new();
        std::mem::swap(&mut self.lsa_database, &mut lsas);
        put_lsa(&mut lsas, lsa);
        std::mem::swap(&mut self.lsa_database, &mut lsas);
        true
    }

    /// All stored advertisements, in table order.
    pub fn get_all_lsas(&self) -> (lsas: Vec<LinkStateAdvertisement>)
        ensures
            lsas_view(lsas@) == self@.lsas,
    {
        copy_lsas(&self.lsa_database)
    }

    /// The one-hop route to `destination`, if it is a connected direct
    /// peer; no route otherwise.
    pub fn find_route(&self, destination: &str) -> (route: Option<Vec<String>>)
        ensures
            path_option_view(route) == if self@.has_connected_peer(destination@) {
                Some(seq![destination@])
            } else {
                None
            },
    {
        proof {
            use_type_invariant(self);
        }
        match peer_slot(&self.peers, destination) {
            Some(i) => {
                if self.peers[i].status == PeerStatus::Connected {
                    let mut route: Vec<String> = Vec::new();
                    route.push(destination.to_string());
                    assert(texts_view(route@) =~= seq![destination@]);
                    Some(route)
                } else {
                    None
                }
            },
            None => None,
        }
    }

    /// The route from `source` to `destination` over the graph made of
    /// the connected direct peers, as successors of `source`, and of every
    /// stored advertisement, whose origin has its neighbors as
    /// successors.
    ///
    /// Returns the nodes after `source` up to and including
    /// `destination`, so the empty path when both are the same, and
    /// `None` exactly when `destination` cannot be reached. The route is
    /// a shortest one; where a node can be entered from several nodes at
    /// the same distance, the one whose identifier sorts last is taken.
    ///
    /// The last two clauses spell out two plain cases: a connected direct
    /// peer is one hop away, and a node that is no connected direct peer
    /// and that no advertisement lists cannot be reached.
    pub fn find_route_from(&self, source: &str, destination: &str) -> (route: Option<Vec<String>>)
        ensures
            path_option_view(route) == self@.topology(source@).route(destination@),
            route is Some <==> self@.topology(source@).reachable(destination@),
            route matches Some(path) ==> self@.topology(source@).is_route(
                destination@,
                texts_view(path@),
            ),
            route matches Some(path) ==> self@.topology(source@).is_walk(
                destination@,
                texts_view(path@),
            ),
            route matches Some(path) ==> (path.len() == 0 <==> source@ == destination@),
            source@ == destination@ ==> route is Some,
            source@ != destination@ && self@.has_connected_peer(destination@)
                ==> path_option_view(route) == Some(seq![destination@]),
            source@ != destination@ && !self@.has_connected_peer(destination@)
                && !self@.is_advertised(destination@) ==> route is None,
    {
        let route = self.search(source, destination);
        proof {
            use_type_invariant(self);
            let topo = self@.topology(source@);
            lemma_edge_by_lookup(self@, source@, source@, destination@);
            if source@ == destination@ {
                assert(topo.within(destination@, 0));
            } else if self@.has_connected_peer(destination@) {
                topo.lemma_successor_route(destination@);
            } else if !self@.is_advertised(destination@) {
                topo.lemma_without_edge_unreachable(destination@);
            }
        }
        route
    }

    /// Searches the route from `source` to `destination`.
    fn search(&self, source: &str, destination: &str) -> (route: Option<Vec<String>>)
        ensures
            path_option_view(route) == self@.topology(source@).route(destination@),
            route is Some <==> self@.topology(source@).reachable(destination@),
            route matches Some(path) ==> self@.topology(source@).is_route(
                destination@,
                texts_view(path@),
            ),
            route matches Some(path) ==> self@.topology(source@).is_walk(
                destination@,
                texts_view(path@),
            ),
            route matches Some(path) ==> (path.len() == 0 <==> source@ == destination@),
    {
        proof {
            use_type_invariant(self);
        }
        let ghost topo = self@.topology(source@);
        if same_text(source, destination) {
            let path: Vec<String> = Vec::new();
            proof {
                assert(texts_view(path@) =~= Seq::empty());
                topo.lemma_route_is_walk(destination@, texts_view(path@));
                topo.lemma_route_found(destination@, texts_view(path@));
            }
            return Some(path);
        }
        // The search starts with the source alone. `visited` holds the
        // nodes that are done; it grows with every round and stays within
        // the nodes of the graph, which bounds the number of rounds.
        let direct = connected_peer_ids(&self.peers);
        let mut entries: Vec<Entry> = Vec::new();
        entries.push(Entry { id: source.to_string(), dist: 0, parent: 0, done: false });
        let ghost mut visited: Set<NodeIdView> = Set::empty();
        proof {
            lemma_search_starts(topo, destination@);
            assert(entries_view(entries@) =~= seq![
                EntryView { id: topo.source, dist: 0, parent: 0, done: false },
            ]);
            topo.lemma_nodes_finite();
        }
        loop
            invariant
                topo == self@.topology(source@),
                topo == (Topology {
                    source: source@,
                    direct: texts_view(direct@),
                    lsas: lsas_view(self.lsa_database@),
                }),
                origins(lsas_view(self.lsa_database@)).no_duplicates(),
                search_inv(topo, destination@, entries_view(entries@), -1),
                topo.nodes().finite(),
                visited.finite(),
                visited.subset_of(topo.nodes()),
                forall|i: int|
                    0 <= i < entries.len() && (#[trigger] entries_view(entries@)[i]).done
                        ==> visited.contains(entries_view(entries@)[i].id),
                forall|id: NodeIdView|
                    visited.contains(id) ==> #[trigger] has_done(entries_view(entries@), id),
            decreases topo.nodes().len() - visited.len(),
        {
            let ghost before = entries_view(entries@);
            // Take the nearest entry that is not done; without one the
            // search has seen all that can be reached.
            let b = match pick_next(&entries) {
                Some(b) => b,
                None => {
                    proof {
                        lemma_search_exhausted(topo, destination@, before);
                    }
                    return None;
                },
            };
            if same_text(entries[b].id.as_str(), destination) {
                let path = path_to(&entries, b);
                proof {
                    lemma_chain_is_route(topo, destination@, before, -1, b as int);
                    topo.lemma_route_is_walk(destination@, texts_view(path@));
                    topo.lemma_route_found(destination@, texts_view(path@));
                }
                return Some(path);
            }
            // Mark the entry done and discover its successors. A node
            // that has an entry already was discovered at a distance no
            // greater, so its entry stays as it is.
            entries[b].done = true;
            let hops: usize = entries[b].dist;
            proof {
                assert(entries_view(entries@) =~= marked_done(before, b as int));
                lemma_search_takes(topo, destination@, before, b as int);
                lemma_entry_is_node(topo, destination@, before, -1, b as int);
                assert(!visited.contains(before[b as int].id)) by {
                    if has_done(before, before[b as int].id) {
                        let j = choose|j: int|
                            0 <= j < before.len() && (#[trigger] before[j]).id
                                == before[b as int].id && before[j].done;
                        assert(j == b);
                    }
                }
                visited = visited.insert(before[b as int].id);
                vstd::set_lib::lemma_len_subset(visited, topo.nodes());
                assert(entry_ok(topo, before, b as int));
                assert forall|id: NodeIdView| visited.contains(id) implies #[trigger] has_done(
                    entries_view(entries@),
                    id,
                ) by {
                    if id == before[b as int].id {
                        assert(entries_view(entries@)[b as int].id == id);
                    } else {
                        assert(has_done(before, id));
                        let j = choose|j: int|
                            0 <= j < before.len() && (#[trigger] before[j]).id == id
                                && before[j].done;
                        assert(entries_view(entries@)[j].id == id);
                    }
                }
            }
            let out = successors(&direct, &self.lsa_database, source, entries[b].id.as_str());
            let ghost node = before[b as int].id;
            let mut k: usize = 0;
            while k < out.len()
                invariant
                    k <= out.len(),
                    b < entries.len(),
                    hops < entries.len(),
                    entries_view(entries@)[b as int].done,
                    entries_view(entries@)[b as int].id == node,
                    entries_view(entries@)[b as int].dist == hops,
                    forall|to: NodeIdView|
                        texts_view(out@).contains(to) <==> #[trigger] topo.edge(node, to),
                    search_inv(topo, destination@, entries_view(entries@), b as int),
                    forall|seen: int|
                        0 <= seen < k ==> has_entry(
                            entries_view(entries@),
                            #[trigger] texts_view(out@)[seen],
                        ),
                    forall|i: int|
                        0 <= i < entries.len() && (#[trigger] entries_view(entries@)[i]).done
                            ==> visited.contains(entries_view(entries@)[i].id),
                    forall|id: NodeIdView|
                        visited.contains(id) ==> #[trigger] has_done(entries_view(entries@), id),
                decreases out.len() - k,
            {
                let ghost current = entries_view(entries@);
                let ghost to = texts_view(out@)[k as int];
                assert(texts_view(out@).contains(to));
                match find_entry(&entries, out[k].as_str()) {
                    Some(_) => {},
                    None => {
                        proof {
                            lemma_search_discovers(topo, destination@, current, b as int, to);
                        }
                        entries.push(
                            Entry { id: out[k].clone(), dist: hops + 1, parent: b, done: false },
                        );
                        proof {
                            let added = discovered(current, b as int, to);
                            assert(entries_view(entries@) =~= current.push(added));
                            assert(entries_view(entries@)[current.len() as int].id == to);
                            assert forall|seen: int| 0 <= seen < k implies has_entry(
                                entries_view(entries@),
                                #[trigger] texts_view(out@)[seen],
                            ) by {
                                lemma_entries_grow(current, added, texts_view(out@)[seen]);
                            }
                            assert forall|id: NodeIdView|
                                visited.contains(id) implies #[trigger] has_done(
                                entries_view(entries@),
                                id,
                            ) by {
                                lemma_entries_grow(current, added, id);
                            }
                        }
                    },
                }
                k += 1;
            }
            proof {
                let after = entries_view(entries@);
                assert forall|to: NodeIdView| #[trigger]
                    topo.edge(after[b as int].id, to) implies has_entry(after, to) by {
                    assert(texts_view(out@).contains(to));
                    let seen = choose|seen: int|
                        0 <= seen < texts_view(out@).len() && texts_view(out@)[seen] == to;
                    assert(has_entry(after, texts_view(out@)[seen]));
                }
                assert(closed_at(topo, after, b as int));
                lemma_search_closes(topo, destination@, after, b as int);
            }
        }
    }
}

} // verus!
