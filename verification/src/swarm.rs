//! What a swarm tells a behaviour, and what a behaviour asks of a swarm.

use libp2p_core::transport::ListenerId;
use libp2p_core::Multiaddr;
use libp2p_identity::PeerId;
use libp2p_swarm::dial_opts::DialOpts;
use libp2p_swarm::ConnectionId;
use vstd::prelude::*;

use crate::net::is_relayed;
use crate::net::spec_is_relayed;

verus! {

/// The end of a connection that a node is at.
#[derive(Clone, Copy, Debug, PartialEq, Eq, Structural)]
pub enum Endpoint {
    /// The node dialed.
    Dialer,
    /// The node was dialed.
    Listener,
}

/// Which port a dial leaves from.
#[derive(Clone, Copy, Debug, PartialEq, Eq, Structural)]
pub enum PortUse {
    /// A port that the node listens on.
    Reuse,
    /// A new port.
    New,
}

/// How a peer is connected.
#[derive(Debug)]
pub enum ConnectedPoint {
    /// The local node dialed.
    Dialer {
        /// The address that was dialed.
        address: Multiaddr,
        /// The role that the local node takes.
        role_override: Endpoint,
        /// The port that the dial left from.
        port_use: PortUse,
    },
    /// The local node was dialed.
    Listener {
        /// The local address of the connection.
        local_addr: Multiaddr,
        /// The address of the remote end.
        send_back_addr: Multiaddr,
    },
}

impl ConnectedPoint {
    /// The address of the remote end.
    pub open spec fn remote_address(&self) -> Multiaddr {
        match self {
            ConnectedPoint::Dialer { address, .. } => *address,
            ConnectedPoint::Listener { send_back_addr, .. } => *send_back_addr,
        }
    }

    /// The address of the remote end.
    pub fn get_remote_address(&self) -> (r: &Multiaddr)
        ensures
            *r == self.remote_address(),
    {
        match self {
            ConnectedPoint::Dialer { address, .. } => address,
            ConnectedPoint::Listener { send_back_addr, .. } => send_back_addr,
        }
    }

    /// Whether the connection leads through a relay.
    pub open spec fn relayed(&self) -> bool {
        match self {
            ConnectedPoint::Dialer { address, .. } => spec_is_relayed(*address),
            ConnectedPoint::Listener { local_addr, .. } => spec_is_relayed(*local_addr),
        }
    }

    /// Whether the connection leads through a relay.
    pub fn is_relayed(&self) -> (r: bool)
        ensures
            r == self.relayed(),
    {
        match self {
            ConnectedPoint::Dialer { address, .. } => is_relayed(address),
            ConnectedPoint::Listener { local_addr, .. } => is_relayed(local_addr),
        }
    }
}

/// When a dial is attempted.
#[derive(Clone, Copy, Debug, PartialEq, Eq, Structural)]
pub enum PeerCondition {
    /// Only if the peer is not connected.
    Disconnected,
    /// Only if the peer is not being dialed.
    NotDialing,
    /// Only if the peer is neither connected nor being dialed.
    DisconnectedAndNotDialing,
    /// In any case.
    Always,
}

/// Why a dial failed.
#[derive(Debug)]
pub enum DialError {
    /// The peer is the local node.
    LocalPeerId,
    /// No address was known.
    NoAddresses,
    /// The condition of the dial was not met.
    DialPeerConditionFalse(PeerCondition),
    /// The dial was given up.
    Aborted,
    /// Another peer answered.
    WrongPeerId,
    /// A behaviour denied the connection.
    Denied,
    /// None of these addresses could be reached.
    Transport(Vec<Multiaddr>),
}

/// Which of a peer's connection handlers an event is for.
#[derive(Debug)]
pub enum NotifyHandler {
    /// The handler of one connection.
    One(ConnectionId),
    /// Any handler of the peer.
    Any,
}

/// What a behaviour asks of the swarm.
#[derive(Debug)]
pub enum ToSwarm<TOutEvent, TInEvent> {
    /// Hand an event to the application.
    GenerateEvent(TOutEvent),
    /// Dial a peer.
    Dial {
        /// Whom to dial, and how.
        opts: DialOpts,
    },
    /// Hand an event to a connection handler.
    NotifyHandler {
        /// The peer that the handler belongs to.
        peer_id: PeerId,
        /// Which of the peer's handlers.
        handler: NotifyHandler,
        /// The event.
        event: TInEvent,
    },
    /// Tell the other behaviours an address of a peer.
    NewExternalAddrOfPeer {
        /// The peer.
        peer_id: PeerId,
        /// Its address.
        address: Multiaddr,
    },
}

/// What the swarm tells a behaviour.
#[allow(inconsistent_fields)]
#[derive(Debug)]
pub enum FromSwarm {
    /// A connection was established.
    ConnectionEstablished {
        /// The peer at the other end.
        peer_id: PeerId,
        /// The addresses that were tried in vain.
        failed_addresses: Vec<Multiaddr>,
        /// The number of connections that the peer had before.
        other_established: usize,
    },
    /// A connection was closed.
    ConnectionClosed {
        /// The peer at the other end.
        peer_id: PeerId,
        /// The connection.
        connection_id: ConnectionId,
        /// How the peer was connected.
        endpoint: ConnectedPoint,
        /// The number of connections that the peer still has.
        remaining_established: usize,
    },
    /// The address of a connection changed.
    AddressChange {
        /// The peer at the other end.
        peer_id: PeerId,
        /// How the peer was connected.
        old: ConnectedPoint,
        /// How the peer is connected now.
        new: ConnectedPoint,
    },
    /// A dial failed.
    DialFailure {
        /// The peer that was dialed, if it is known.
        peer_id: Option<PeerId>,
        /// The connection that would have been.
        connection_id: ConnectionId,
        /// Why the dial failed.
        error: DialError,
    },
    /// A listener listens on an address.
    NewListenAddr {
        /// The listener.
        listener_id: ListenerId,
        /// The address.
        addr: Multiaddr,
    },
    /// A listener no longer listens on an address.
    ExpiredListenAddr {
        /// The listener.
        listener_id: ListenerId,
        /// The address.
        addr: Multiaddr,
    },
    /// An external address was confirmed.
    ExternalAddrConfirmed {
        /// The address.
        addr: Multiaddr,
    },
    /// An external address is no longer valid.
    ExternalAddrExpired {
        /// The address.
        addr: Multiaddr,
    },
    /// Anything else.
    Other,
}

/// A sequence with the element at `i` removed and the last one put in its place.
pub open spec fn swap_removed<T>(s: Seq<T>, i: int) -> Seq<T> {
    s.update(i, s.last()).drop_last()
}

} // verus!
