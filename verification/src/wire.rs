//! The records as they travel between gateways.
//!
//! On the wire an instant is RFC 3339 text and a peer status is its name
//! in lower case. A wire record holds exactly the fields of the JSON
//! object that carries it.

use crate::node_id::{same_text, NodeIdView};
use crate::timestamp::{
    deserialize, serialize, spec_deserialize, spec_serialize, text_view, Timestamp,
    TimestampError,
};
use crate::types::{
    clone_texts, texts_view, LinkStateAdvertisement, LsaView, PeerInfo, PeerInfoView, PeerStatus,
};
use vstd::prelude::*;

verus! {

/// An advertisement in wire form.
#[derive(Debug)]
pub struct WireLsa {
    pub node_id: String,
    pub neighbors: Vec<String>,
    pub sequence: u64,
    pub timestamp: Option<String>,
}

/// The model of a `WireLsa`.
pub struct WireLsaView {
    pub node_id: NodeIdView,
    pub neighbors: Seq<NodeIdView>,
    pub sequence: u64,
    pub timestamp: Option<Seq<char>>,
}

impl View for WireLsa {
    type V = WireLsaView;

    open spec fn view(&self) -> WireLsaView {
        WireLsaView {
            node_id: self.node_id@,
            neighbors: texts_view(self.neighbors@),
            sequence: self.sequence,
            timestamp: text_view(self.timestamp),
        }
    }
}

/// A peer in wire form.
#[derive(Debug)]
pub struct WirePeerInfo {
    pub node_id: String,
    pub address: String,
    pub status: String,
    pub last_seen: Option<String>,
}

/// The model of a `WirePeerInfo`.
pub struct WirePeerInfoView {
    pub node_id: NodeIdView,
    pub address: Seq<char>,
    pub status: Seq<char>,
    pub last_seen: Option<Seq<char>>,
}

impl View for WirePeerInfo {
    type V = WirePeerInfoView;

    open spec fn view(&self) -> WirePeerInfoView {
        WirePeerInfoView {
            node_id: self.node_id@,
            address: self.address@,
            status: self.status@,
            last_seen: text_view(self.last_seen),
        }
    }
}

/// Why a wire record is no record.
#[derive(Debug, Clone, Copy, PartialEq, Eq, Structural)]
pub enum WireError {
    /// An instant could not be written or read.
    Timestamp(TimestampError),
    /// The status is none of `connected`, `disconnected`, `unknown`.
    UnknownStatus,
}

/// The name of a status on the wire.
pub open spec fn spec_status_name(status: PeerStatus) -> Seq<char> {
    match status {
        PeerStatus::Connected => "connected"@,
        PeerStatus::Disconnected => "disconnected"@,
        PeerStatus::Unknown => "unknown"@,
    }
}

/// The status that a name on the wire stands for.
pub open spec fn spec_status_from_name(name: Seq<char>) -> Option<PeerStatus> {
    if name == "connected"@ {
        Some(PeerStatus::Connected)
    } else if name == "disconnected"@ {
        Some(PeerStatus::Disconnected)
    } else if name == "unknown"@ {
        Some(PeerStatus::Unknown)
    } else {
        None
    }
}

/// The wire form of `lsa`.
pub open spec fn spec_lsa_to_wire(lsa: LsaView) -> Result<WireLsaView, TimestampError> {
    match spec_serialize(lsa.timestamp) {
        Ok(timestamp) => Ok(
            WireLsaView {
                node_id: lsa.node_id,
                neighbors: lsa.neighbors,
                sequence: lsa.sequence,
                timestamp,
            },
        ),
        Err(e) => Err(e),
    }
}

/// The advertisement that `wire` stands for.
pub open spec fn spec_lsa_from_wire(wire: WireLsaView) -> Result<LsaView, TimestampError> {
    match spec_deserialize(wire.timestamp) {
        Ok(timestamp) => Ok(
            LsaView {
                node_id: wire.node_id,
                neighbors: wire.neighbors,
                sequence: wire.sequence,
                timestamp,
            },
        ),
        Err(e) => Err(e),
    }
}

/// The wire form of `peer`.
pub open spec fn spec_peer_to_wire(peer: PeerInfoView) -> Result<WirePeerInfoView, WireError> {
    match spec_serialize(peer.last_seen) {
        Ok(last_seen) => Ok(
            WirePeerInfoView {
                node_id: peer.node_id,
                address: peer.address,
                status: spec_status_name(peer.status),
                last_seen,
            },
        ),
        Err(e) => Err(WireError::Timestamp(e)),
    }
}

/// The peer that `wire` stands for.
pub open spec fn spec_peer_from_wire(wire: WirePeerInfoView) -> Result<PeerInfoView, WireError> {
    match spec_status_from_name(wire.status) {
        None => Err(WireError::UnknownStatus),
        Some(status) => match spec_deserialize(wire.last_seen) {
            Ok(last_seen) => Ok(
                PeerInfoView { node_id: wire.node_id, address: wire.address, status, last_seen },
            ),
            Err(e) => Err(WireError::Timestamp(e)),
        },
    }
}

/// The model of a wire advertisement or an error.
pub open spec fn wire_lsa_result_view(r: Result<WireLsa, TimestampError>) -> Result<
    WireLsaView,
    TimestampError,
> {
    match r {
        Ok(wire) => Ok(wire@),
        Err(e) => Err(e),
    }
}

/// The model of an advertisement or an error.
pub open spec fn lsa_result_view(r: Result<LinkStateAdvertisement, TimestampError>) -> Result<
    LsaView,
    TimestampError,
> {
    match r {
        Ok(lsa) => Ok(lsa@),
        Err(e) => Err(e),
    }
}

/// The model of a wire peer or an error.
pub open spec fn wire_peer_result_view(r: Result<WirePeerInfo, WireError>) -> Result<
    WirePeerInfoView,
    WireError,
> {
    match r {
        Ok(wire) => Ok(wire@),
        Err(e) => Err(e),
    }
}

/// The model of a peer or an error.
pub open spec fn peer_result_view(r: Result<PeerInfo, WireError>) -> Result<
    PeerInfoView,
    WireError,
> {
    match r {
        Ok(peer) => Ok(peer@),
        Err(e) => Err(e),
    }
}

/// The three status names differ from each other.
proof fn lemma_status_names_differ()
    ensures
        "connected"@ != "disconnected"@,
        "connected"@ != "unknown"@,
        "disconnected"@ != "unknown"@,
{
    reveal_strlit("connected");
    reveal_strlit("disconnected");
    reveal_strlit("unknown");
    assert("connected"@.len() == 9);
    assert("disconnected"@.len() == 12);
    assert("unknown"@.len() == 7);
}

/// The name of a status on the wire; `status_from_name` reads it back.
pub fn status_name(status: PeerStatus) -> (name: &'static str)
    ensures
        name@ == spec_status_name(status),
        spec_status_from_name(name@) == Some(status),
{
    proof {
        lemma_status_names_differ();
    }
    match status {
        PeerStatus::Connected => "connected",
        PeerStatus::Disconnected => "disconnected",
        PeerStatus::Unknown => "unknown",
    }
}

/// The status that a name on the wire stands for, if it is one.
pub fn status_from_name(name: &str) -> (status: Option<PeerStatus>)
    ensures
        status == spec_status_from_name(name@),
{
    if same_text(name, "connected") {
        Some(PeerStatus::Connected)
    } else if same_text(name, "disconnected") {
        Some(PeerStatus::Disconnected)
    } else if same_text(name, "unknown") {
        Some(PeerStatus::Unknown)
    } else {
        None
    }
}

fn text_of(text: &Option<String>) -> (borrowed: Option<&str>)
    ensures
        match borrowed {
            Some(t) => text_view(*text) == Some(t@),
            None => text is None,
        },
{
    match text {
        Some(t) => Some(t.as_str()),
        None => None,
    }
}

/// Writes an advertisement in wire form.
///
/// Fails exactly where its timestamp has no RFC 3339 text. A wire form
/// that this function returns is read back by `lsa_from_wire` as the
/// advertisement it was made from.
pub fn lsa_to_wire(lsa: &LinkStateAdvertisement) -> (wire: Result<WireLsa, TimestampError>)
    ensures
        wire_lsa_result_view(wire) == spec_lsa_to_wire(lsa@),
        wire matches Ok(w) ==> spec_lsa_from_wire(w@) == Ok::<LsaView, TimestampError>(lsa@),
{
    match serialize(&lsa.timestamp) {
        Ok(timestamp) => Ok(
            WireLsa {
                node_id: lsa.node_id.clone(),
                neighbors: clone_texts(&lsa.neighbors),
                sequence: lsa.sequence,
                timestamp,
            },
        ),
        Err(e) => Err(e),
    }
}

/// Reads an advertisement from its wire form.
pub fn lsa_from_wire(wire: WireLsa) -> (lsa: Result<LinkStateAdvertisement, TimestampError>)
    ensures
        lsa_result_view(lsa) == spec_lsa_from_wire(wire@),
{
    match deserialize(text_of(&wire.timestamp)) {
        Ok(timestamp) => Ok(
            LinkStateAdvertisement {
                node_id: wire.node_id,
                neighbors: wire.neighbors,
                sequence: wire.sequence,
                timestamp,
            },
        ),
        Err(e) => Err(e),
    }
}

/// Writes a peer in wire form.
///
/// Fails exactly where its `last_seen` has no RFC 3339 text. A wire form
/// that this function returns is read back by `peer_from_wire` as the
/// peer it was made from.
pub fn peer_to_wire(peer: &PeerInfo) -> (wire: Result<WirePeerInfo, WireError>)
    ensures
        wire_peer_result_view(wire) == spec_peer_to_wire(peer@),
        wire matches Ok(w) ==> spec_peer_from_wire(w@) == Ok::<PeerInfoView, WireError>(peer@),
{
    match serialize(&peer.last_seen) {
        Ok(last_seen) => Ok(
            WirePeerInfo {
                node_id: peer.node_id.clone(),
                address: peer.address.clone(),
                status: status_name(peer.status).to_string(),
                last_seen,
            },
        ),
        Err(e) => Err(WireError::Timestamp(e)),
    }
}

/// Reads a peer from its wire form.
pub fn peer_from_wire(wire: WirePeerInfo) -> (peer: Result<PeerInfo, WireError>)
    ensures
        peer_result_view(peer) == spec_peer_from_wire(wire@),
{
    match status_from_name(wire.status.as_str()) {
        None => Err(WireError::UnknownStatus),
        Some(status) => match deserialize(text_of(&wire.last_seen)) {
            Ok(last_seen) => Ok(
                PeerInfo { node_id: wire.node_id, address: wire.address, status, last_seen },
            ),
            Err(e) => Err(WireError::Timestamp(e)),
        },
    }
}

} // verus!
