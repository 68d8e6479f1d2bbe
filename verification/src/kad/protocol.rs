//! What connection handlers are told, and what they report.

use std::sync::Arc;

use libp2p_core::Multiaddr;
use libp2p_identity::PeerId;
use vstd::prelude::*;

use crate::assoc::Ident;
use crate::kad::kbucket::EntryView;
use crate::kad::kbucket::NodeStatus;
use crate::kad::kbucket::NodeView;
use crate::kad::record::Key;
use crate::kad::record::Record;
use crate::swarm::ConnectedPoint;

verus! {

/// The number of a query.
#[derive(Clone, Copy, Debug, PartialEq, Eq, Structural)]
pub struct QueryId(pub usize);

impl Ident for QueryId {
    fn same(&self, other: &Self) -> (r: bool) {
        *self == *other
    }
}

/// The number of a request that a remote peer made.
#[derive(Clone, Copy, Debug, PartialEq, Eq, Structural)]
pub struct RequestId(pub u64);

/// Whether the node serves requests.
#[derive(Clone, Copy, Debug, PartialEq, Eq, Structural)]
pub enum Mode {
    /// The node makes requests only.
    Client,
    /// The node serves requests too.
    Server,
}

/// Whether the sender of a message is connected to a peer.
#[derive(Clone, Copy, Debug, PartialEq, Eq, Structural)]
pub enum ConnectionType {
    /// The sender is not connected to the peer.
    NotConnected,
    /// The sender is connected to the peer.
    Connected,
}

/// What a message says of a peer.
#[derive(Debug, PartialEq, Eq)]
pub struct KadPeer {
    /// The peer.
    pub node_id: PeerId,
    /// The addresses of the peer.
    pub multiaddrs: Vec<Multiaddr>,
    /// Whether the sender is connected to the peer.
    pub connection_ty: ConnectionType,
}

/// What a [`KadPeer`] says.
pub struct KadPeerView {
    /// The peer.
    pub peer: PeerId,
    /// The addresses of the peer.
    pub addrs: Seq<Multiaddr>,
    /// Whether the sender is connected to the peer.
    pub connection: ConnectionType,
}

impl View for KadPeer {
    type V = KadPeerView;

    open spec fn view(&self) -> KadPeerView {
        KadPeerView {
            peer: self.node_id,
            addrs: self.multiaddrs@,
            connection: self.connection_ty,
        }
    }
}

/// What the elements of a list say.
pub open spec fn kad_peers(list: Seq<KadPeer>) -> Seq<KadPeerView> {
    Seq::new(list.len(), |i: int| list[i]@)
}

/// What is said of a peer of the routing table.
pub open spec fn kad_peer_of(node: NodeView) -> KadPeerView {
    KadPeerView {
        peer: node.peer,
        addrs: node.addrs,
        connection: match node.status {
            NodeStatus::Connected => ConnectionType::Connected,
            NodeStatus::Disconnected => ConnectionType::NotConnected,
        },
    }
}

impl From<EntryView> for KadPeer {
    fn from(e: EntryView) -> (r: KadPeer) {
        KadPeer {
            node_id: e.peer,
            multiaddrs: e.addresses.into_vec(),
            connection_ty: match e.status {
                NodeStatus::Connected => ConnectionType::Connected,
                NodeStatus::Disconnected => ConnectionType::NotConnected,
            },
        }
    }
}

impl vstd::std_specs::convert::FromSpecImpl<EntryView> for KadPeer {
    open spec fn obeys_from_spec() -> bool {
        true
    }

    open spec fn from_spec(e: EntryView) -> KadPeer {
        KadPeer {
            node_id: e.peer,
            multiaddrs: e.addresses.addrs,
            connection_ty: match e.status {
                NodeStatus::Connected => ConnectionType::Connected,
                NodeStatus::Disconnected => ConnectionType::NotConnected,
            },
        }
    }
}

/// What a connection handler is told.
#[allow(inconsistent_fields)]
#[derive(Debug)]
pub enum HandlerIn {
    /// Reset the stream of a request.
    Reset(RequestId),
    /// Serve requests, or stop to do so.
    ReconfigureMode {
        /// The new mode.
        new_mode: Mode,
    },
    /// Ask for the peers closest to a key.
    FindNodeReq {
        /// The key.
        key: Vec<u8>,
        /// The query that the request belongs to.
        query_id: QueryId,
    },
    /// Answer with the peers closest to a key.
    FindNodeRes {
        /// The peers.
        closer_peers: Vec<KadPeer>,
        /// The request.
        request_id: RequestId,
    },
    /// Ask for the providers of a key, and the peers closest to it.
    GetProvidersReq {
        /// The key.
        key: Key,
        /// The query that the request belongs to.
        query_id: QueryId,
    },
    /// Answer with the providers of a key, and the peers closest to it.
    GetProvidersRes {
        /// The peers closest to the key.
        closer_peers: Vec<KadPeer>,
        /// The providers.
        provider_peers: Vec<KadPeer>,
        /// The request.
        request_id: RequestId,
    },
    /// Announce a provider of a key.
    AddProvider {
        /// The key.
        key: Key,
        /// The provider.
        provider: KadPeer,
        /// The query that the request belongs to.
        query_id: QueryId,
    },
    /// Ask for the record of a key.
    GetRecord {
        /// The key.
        key: Key,
        /// The query that the request belongs to.
        query_id: QueryId,
    },
    /// Answer with the record of a key, and the peers closest to it.
    GetRecordRes {
        /// The record.
        record: Option<Record>,
        /// The peers closest to the key.
        closer_peers: Vec<KadPeer>,
        /// The request.
        request_id: RequestId,
    },
    /// Ask to store a record.
    PutRecord {
        /// The record.
        record: Record,
        /// The query that the request belongs to.
        query_id: QueryId,
    },
    /// Answer that a record was stored.
    PutRecordRes {
        /// The key of the record.
        key: Key,
        /// The value of the record.
        value: Arc<Vec<u8>>,
        /// The request.
        request_id: RequestId,
    },
}

/// Why a request failed.
#[derive(Debug)]
pub struct RequestError {
    /// The reason in words.
    pub reason: String,
}

/// What a connection handler reports.
#[allow(inconsistent_fields)]
#[derive(Debug)]
pub enum HandlerEvent {
    /// The remote peer speaks the protocol.
    ProtocolConfirmed {
        /// How the peer is connected.
        endpoint: ConnectedPoint,
    },
    /// The remote peer does not speak the protocol.
    ProtocolNotSupported {
        /// How the peer is connected.
        endpoint: ConnectedPoint,
    },
    /// The remote peer asks for the peers closest to a key.
    FindNodeReq {
        /// The key.
        key: Vec<u8>,
        /// The request.
        request_id: RequestId,
    },
    /// The remote peer answers with the peers closest to a key.
    FindNodeRes {
        /// The peers.
        closer_peers: Vec<KadPeer>,
        /// The query that the request belongs to.
        query_id: QueryId,
    },
    /// The remote peer asks for the providers of a key.
    GetProvidersReq {
        /// The key.
        key: Key,
        /// The request.
        request_id: RequestId,
    },
    /// The remote peer answers with the providers of a key.
    GetProvidersRes {
        /// The peers closest to the key.
        closer_peers: Vec<KadPeer>,
        /// The providers.
        provider_peers: Vec<KadPeer>,
        /// The query that the request belongs to.
        query_id: QueryId,
    },
    /// A request failed.
    QueryError {
        /// The query that the request belongs to.
        query_id: QueryId,
        /// Why it failed.
        error: RequestError,
    },
    /// The remote peer announces a provider of a key.
    AddProvider {
        /// The key.
        key: Key,
        /// The provider.
        provider: KadPeer,
    },
    /// The remote peer asks for the record of a key.
    GetRecord {
        /// The key.
        key: Key,
        /// The request.
        request_id: RequestId,
    },
    /// The remote peer answers with the record of a key.
    GetRecordRes {
        /// The record.
        record: Option<Record>,
        /// The peers closest to the key.
        closer_peers: Vec<KadPeer>,
        /// The query that the request belongs to.
        query_id: QueryId,
    },
    /// The remote peer asks to store a record.
    PutRecord {
        /// The record.
        record: Record,
        /// The request.
        request_id: RequestId,
    },
    /// The remote peer answers that a record was stored.
    PutRecordRes {
        /// The query that the request belongs to.
        query_id: QueryId,
    },
}

} // verus!
