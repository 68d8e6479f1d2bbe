//! How the behaviour handles connections and what else the swarm tells.

use libp2p_core::Multiaddr;
use libp2p_identity::PeerId;
use libp2p_swarm::ConnectionId;
use vstd::prelude::*;

use crate::assoc::entries_insert;
use crate::assoc::entries_remove;
use crate::assoc::without_item;
use crate::kad::behaviour::Behaviour;
use crate::kad::bootstrap::Signal;
use crate::kad::kbucket::has_peer;
use crate::kad::kbucket::Entry;
use crate::kad::kbucket::NodeStatus;
use crate::kad::kbucket::NodeView;
use crate::kad::kbucket::Place;
use crate::kad::kbucket::TableView;
use crate::kad::key::key_of_peer;
use crate::kad::key::KeyBytes;
use crate::kad::mode::mode_determined;
use crate::kad::pool::each_query;
use crate::kad::pool::peer_failed;
use crate::kad::pool::rpc_taken;
use crate::kad::pool::taken_rpcs;
use crate::kad::protocol::HandlerIn;
use crate::kad::protocol::Mode;
use crate::kad::protocol::QueryId;
use crate::kad::query::addr_views;
use crate::kad::query::addrs_of;
use crate::kad::query::lemma_addr_views_key;
use crate::kad::query::Query;
use crate::kad::routing::address_change;
use crate::kad::routing::address_failure;
use crate::kad::routing::restated;
use crate::net::add_listen;
use crate::net::confirm_external;
use crate::net::expire_external;
use crate::net::expire_listen;
use crate::net::external_addrs;
use crate::net::external_confirmed;
use crate::net::insert_peer;
use crate::net::is_empty_set;
use crate::net::listen_addrs;
use crate::net::remove_peer;
use crate::swarm::ConnectedPoint;
use crate::swarm::DialError;
use crate::swarm::Endpoint;
use crate::swarm::FromSwarm;
use crate::swarm::PeerCondition;
use crate::swarm::PortUse;
use crate::time::Moment;

verus! {

/// The handler that a new connection gets.
#[derive(Debug)]
pub struct NewHandler {
    /// How the peer is connected.
    pub endpoint: ConnectedPoint,
    /// The peer.
    pub remote_peer_id: PeerId,
    /// Whether the handler serves requests.
    pub mode: Mode,
    /// What the handler is told at once.
    pub preloaded: Vec<HandlerIn>,
}

/// What the failure of several addresses of a peer changes, one after the other.
pub open spec fn addresses_failure<S>(
    before: Behaviour<S>,
    after: Behaviour<S>,
    peer: PeerId,
    addrs: Seq<Multiaddr>,
) -> bool
    decreases addrs.len(),
{
    if addrs.len() == 0 {
        after == before
    } else {
        exists|mid: Behaviour<S>|
            addresses_failure(before, mid, peer, addrs.drop_last()) && #[trigger] address_failure(
                mid,
                after,
                peer,
                addrs.last(),
            )
    }
}

/// What a new connection changes: the addresses that were tried in vain have failed, and the
/// peer is connected.
pub open spec fn established<S>(
    before: Behaviour<S>,
    after: Behaviour<S>,
    peer: PeerId,
    failed_addresses: Seq<Multiaddr>,
    other_established: usize,
) -> bool {
    exists|mid: Behaviour<S>| #[trigger]
        addresses_failure(before, mid, peer, failed_addresses) && if other_established == 0 {
            &&& after == (Behaviour { connected_peers: after.connected_peers, ..mid })
            &&& after.connected_peers@ == mid.connected_peers@.insert(peer)
        } else {
            after == mid
        }
}

/// The addresses that a failed dial shows to be unreachable.
pub open spec fn unreachable_addresses(error: DialError) -> Seq<Multiaddr> {
    match error {
        DialError::Transport(addresses) => addresses@,
        _ => Seq::empty(),
    }
}

/// What a failed dial changes: addresses have failed, and the peer has in every query. If the
/// peer is connected or being dialed, nothing does.
pub open spec fn dial_failed<S>(
    before: Behaviour<S>,
    after: Behaviour<S>,
    peer_id: Option<PeerId>,
    error: DialError,
) -> bool {
    match peer_id {
        None => after == before,
        Some(peer) => if error is DialPeerConditionFalse {
            after == before
        } else {
            exists|mid: Behaviour<S>| #[trigger]
                addresses_failure(before, mid, peer, unreachable_addresses(error)) && {
                    &&& after == (Behaviour { queries: after.queries, ..mid })
                    &&& each_query(mid.queries, after.queries, peer_failed(peer))
                }
        },
    }
}

/// The routing table after a peer has lost its last connection.
pub open spec fn disconnected_in(t: TableView, peer: PeerId) -> TableView {
    match t.place_of(peer) {
        Place::Present(i) => restated(t, i, NodeStatus::Disconnected),
        Place::Pending(i) => t.with_pending_status(i, NodeStatus::Disconnected),
        _ => t,
    }
}

/// What a closed connection changes: it is forgotten, and if it was the last one of its peer,
/// the peer has failed in every query and is no longer connected.
pub open spec fn closed<S>(
    before: Behaviour<S>,
    after: Behaviour<S>,
    peer: PeerId,
    connection: ConnectionId,
    remaining_established: usize,
) -> bool {
    &&& after.connections.entries@ == entries_remove(before.connections.entries@, connection)
    &&& if remaining_established > 0 {
        after == (Behaviour { connections: after.connections, ..before })
    } else {
        &&& after == (Behaviour {
            connections: after.connections,
            queries: after.queries,
            kbuckets: after.kbuckets,
            connected_peers: after.connected_peers,
            ..before
        })
        &&& each_query(before.queries, after.queries, peer_failed(peer))
        &&& after.kbuckets@ == disconnected_in(before.kbuckets@, peer)
        &&& after.connected_peers@ == before.connected_peers@.remove(peer)
    }
}

/// What the choice of a handler for a new connection changes: the connection is remembered,
/// and the requests that waited for it are handed over.
pub open spec fn handler_made<S>(
    before: Behaviour<S>,
    after: Behaviour<S>,
    connection: ConnectionId,
    peer: PeerId,
    endpoint: ConnectedPoint,
    handler: NewHandler,
) -> bool {
    &&& after == (Behaviour {
        connections: after.connections,
        queries: after.queries,
        ..before
    })
    &&& after.connections.entries@ == entries_insert(
        before.connections.entries@,
        connection,
        peer,
    )
    &&& each_query(before.queries, after.queries, rpc_taken(peer))
    &&& handler.endpoint == endpoint
    &&& handler.remote_peer_id == peer
    &&& handler.mode == before.mode
    &&& handler.preloaded@ == taken_rpcs(before.queries.queries.entries@, peer)
}

/// What a new connection that the remote peer dialed changes, and the handler that it gets.
pub open spec fn connection_accepted<S>(
    before: Behaviour<S>,
    after: Behaviour<S>,
    connection: ConnectionId,
    peer: PeerId,
    local_addr: Multiaddr,
    remote_addr: Multiaddr,
    handler: NewHandler,
) -> bool {
    handler_made(
        before,
        after,
        connection,
        peer,
        ConnectedPoint::Listener { local_addr, send_back_addr: remote_addr },
        handler,
    )
}

/// What a new connection that the local node dialed changes, and the handler that it gets.
pub open spec fn connection_dialed<S>(
    before: Behaviour<S>,
    after: Behaviour<S>,
    connection: ConnectionId,
    peer: PeerId,
    addr: Multiaddr,
    role_override: Endpoint,
    port_use: PortUse,
    handler: NewHandler,
) -> bool {
    handler_made(
        before,
        after,
        connection,
        peer,
        ConnectedPoint::Dialer { address: addr, role_override, port_use },
        handler,
    )
}

/// The addresses of a peer that the running queries have learned.
pub open spec fn learned_addresses(entries: Seq<(QueryId, Query)>, peer: PeerId) -> Seq<Multiaddr>
    decreases entries.len(),
{
    if entries.len() == 0 {
        Seq::empty()
    } else {
        learned_addresses(entries.drop_last(), peer) + addrs_of(
            addr_views(entries.last().1.peers.addresses.entries@),
            peer,
        )
    }
}

/// The addresses at which a peer is dialed: those of the routing table, and then those that
/// the running queries have learned.
pub open spec fn dialing_addresses<S>(b: Behaviour<S>, peer: Option<PeerId>) -> Seq<Multiaddr> {
    match peer {
        None => Seq::empty(),
        Some(peer) => (match b.kbuckets@.place_of(peer) {
            Place::Present(i) => b.kbuckets@.nodes[i].addrs,
            _ => Seq::empty(),
        }) + learned_addresses(b.queries.queries.entries@, peer),
    }
}

/// What a change of the external addresses changes: where the mode is chosen by them, it is
/// chosen again.
pub open spec fn external_changed<S>(
    before: Behaviour<S>,
    after: Behaviour<S>,
    addrs: Seq<Multiaddr>,
    changed: bool,
) -> bool {
    let mid = Behaviour { external_addresses: after.external_addresses, ..before };
    &&& external_addrs(after.external_addresses) == addrs
    &&& if before.auto_mode && changed {
        mode_determined(mid, after)
    } else {
        after == mid
    }
}

/// What the swarm's news change.
pub open spec fn news_handled<S>(before: Behaviour<S>, after: Behaviour<S>, event: FromSwarm) -> bool {
    let known = external_addrs(before.external_addresses);
    match event {
        FromSwarm::ConnectionEstablished { peer_id, failed_addresses, other_established } => {
            established(before, after, peer_id, failed_addresses@, other_established)
        },
        FromSwarm::ConnectionClosed { peer_id, connection_id, remaining_established, .. } => {
            closed(before, after, peer_id, connection_id, remaining_established)
        },
        FromSwarm::AddressChange { peer_id, old: o, new: n } => address_change(
            before,
            after,
            peer_id,
            o.remote_address(),
            n.remote_address(),
        ),
        FromSwarm::DialFailure { peer_id, error, .. } => dial_failed(before, after, peer_id, error),
        FromSwarm::NewListenAddr { addr, .. } => {
            &&& after == (Behaviour {
                listen_addresses: after.listen_addresses,
                bootstrap_status: after.bootstrap_status,
                ..before
            })
            &&& listen_addrs(after.listen_addresses) == listen_addrs(
                before.listen_addresses,
            ).insert(addr)
            &&& if before.connected_peers@ == Set::<PeerId>::empty() {
                before.bootstrap_status.signaled(after.bootstrap_status, Signal::Trigger)
            } else {
                after.bootstrap_status == before.bootstrap_status
            }
        },
        FromSwarm::ExpiredListenAddr { addr, .. } => {
            &&& after == (Behaviour { listen_addresses: after.listen_addresses, ..before })
            &&& listen_addrs(after.listen_addresses) == listen_addrs(
                before.listen_addresses,
            ).remove(addr)
        },
        FromSwarm::ExternalAddrConfirmed { addr } => external_changed(
            before,
            after,
            external_confirmed(known, addr),
            !known.contains(addr),
        ),
        FromSwarm::ExternalAddrExpired { addr } => external_changed(
            before,
            after,
            without_item(known, addr),
            known.contains(addr),
        ),
        FromSwarm::Other => after == before,
    }
}

/// A table in which a peer is disconnected has its connected peers among the others.
proof fn lemma_connected_without(t: TableView, connected: Set<PeerId>, peer: PeerId)
    requires
        t.wf(),
        t.connected_within(connected),
        match t.place_of(peer) {
            Place::Present(i) => t.nodes[i].status == NodeStatus::Disconnected,
            Place::Pending(i) => t.pending[i].node.status == NodeStatus::Disconnected,
            _ => true,
        },
    ensures
        t.connected_within(connected.remove(peer)),
{
    let less = connected.remove(peer);
    assert forall|i: int|
        0 <= i < t.nodes.len() && (#[trigger] t.nodes[i]).status
            == NodeStatus::Connected implies has_peer(less, t.nodes[i].key()) by {
        let p = choose|p: PeerId| #[trigger]
            connected.contains(p) && key_of_peer(p) == t.nodes[i].key();
        t.lemma_present(i);
        assert(p != peer);
        assert(less.contains(p));
    }
    assert forall|i: int|
        0 <= i < t.pending.len() && (#[trigger] t.pending[i]).node.status
            == NodeStatus::Connected implies has_peer(less, t.pending[i].node.key()) by {
        let p = choose|p: PeerId| #[trigger]
            connected.contains(p) && key_of_peer(p) == t.pending[i].node.key();
        t.lemma_waiting(i);
        assert(p != peer);
        assert(less.contains(p));
    }
}

/// A peer that has lost its last connection is disconnected in the routing table.
proof fn lemma_disconnected(t: TableView, peer: PeerId)
    requires
        t.wf(),
    ensures
        ({
            let t2 = disconnected_in(t, peer);
            match t2.place_of(peer) {
                Place::Present(i) => t2.nodes[i].status == NodeStatus::Disconnected,
                Place::Pending(i) => t2.pending[i].node.status == NodeStatus::Disconnected,
                _ => true,
            }
        }),
{
    let key = key_of_peer(peer);
    let t2 = disconnected_in(t, peer);
    t.lemma_place(key);
    match t.place_of(peer) {
        Place::Present(i) => {
            if t.nodes[i].status == NodeStatus::Disconnected {
                t.lemma_present(i);
            } else {
                t.lemma_node_status_wf(i, NodeStatus::Disconnected);
                t2.lemma_present(t2.nodes.len() - 1);
            }
        },
        Place::Pending(i) => {
            t.lemma_pending_update_wf(
                i,
                NodeView {
                    status: NodeStatus::Disconnected,
                    ..t.pending[i].node
                },
            );
            t2.lemma_waiting(i);
        },
        _ => {},
    }
}

/// More connected peers are no harm.
proof fn lemma_connected_with(t: TableView, connected: Set<PeerId>, peer: PeerId)
    requires
        t.connected_within(connected),
    ensures
        t.connected_within(connected.insert(peer)),
{
    let more = connected.insert(peer);
    assert forall|i: int|
        0 <= i < t.nodes.len() && (#[trigger] t.nodes[i]).status
            == NodeStatus::Connected implies has_peer(more, t.nodes[i].key()) by {
        let p = choose|p: PeerId| #[trigger]
            connected.contains(p) && key_of_peer(p) == t.nodes[i].key();
        assert(more.contains(p));
    }
    assert forall|i: int|
        0 <= i < t.pending.len() && (#[trigger] t.pending[i]).node.status
            == NodeStatus::Connected implies has_peer(more, t.pending[i].node.key()) by {
        let p = choose|p: PeerId| #[trigger]
            connected.contains(p) && key_of_peer(p) == t.pending[i].node.key();
        assert(more.contains(p));
    }
}

impl<TStore> Behaviour<TStore> {
    /// Handles several addresses of a peer that could not be reached.
    fn addresses_failed(&mut self, peer_id: PeerId, addresses: &Vec<Multiaddr>)
        requires
            old(self).wf(),
        ensures
            final(self).wf(),
            addresses_failure(*old(self), *final(self), peer_id, addresses@),
    {
        let ghost before = *self;
        let n: usize = addresses.len();
        let mut i: usize = 0;
        while i < n
            invariant
                n == addresses@.len(),
                i <= n,
                self.wf(),
                addresses_failure(before, *self, peer_id, addresses@.take(i as int)),
            decreases n - i,
        {
            let ghost mid = *self;
            self.address_failed(peer_id, &addresses[i]);
            proof {
                let taken = addresses@.take(i + 1);
                assert(taken.drop_last() =~= addresses@.take(i as int));
                assert(taken.last() == addresses@[i as int]);
                assert(addresses_failure(before, mid, peer_id, taken.drop_last()));
                assert(address_failure(mid, *self, peer_id, taken.last()));
                assert(addresses_failure(before, *self, peer_id, taken));
            }
            i = i + 1;
        }
        assert(addresses@.take(n as int) =~= addresses@);
    }

    /// Handles a new connection.
    pub fn on_connection_established(
        &mut self,
        peer_id: PeerId,
        failed_addresses: &Vec<Multiaddr>,
        other_established: usize,
    )
        requires
            old(self).wf(),
        ensures
            final(self).wf(),
            established(*old(self), *final(self), peer_id, failed_addresses@, other_established),
    {
        self.addresses_failed(peer_id, failed_addresses);
        if other_established == 0 {
            proof {
                lemma_connected_with(self.kbuckets@, self.connected_peers@, peer_id);
            }
            insert_peer(&mut self.connected_peers, peer_id);
        }
    }

    /// Handles a failed dial.
    pub fn on_dial_failure(&mut self, peer_id: Option<PeerId>, error: &DialError)
        requires
            old(self).wf(),
            peer_id is Some ==> *error != DialError::DialPeerConditionFalse(
                PeerCondition::Always,
            ),
        ensures
            final(self).wf(),
            dial_failed(*old(self), *final(self), peer_id, *error),
    {
        let peer_id = match peer_id {
            Some(p) => p,
            None => return,
        };
        match error {
            DialError::DialPeerConditionFalse(_) => {},
            DialError::Transport(addresses) => {
                self.addresses_failed(peer_id, addresses);
                let ghost mid = *self;
                assert(addresses_failure(*old(self), mid, peer_id, unreachable_addresses(*error)));
                self.queries.fail_peer(&peer_id);
            },
            _ => {
                let ghost mid = *self;
                assert(addresses_failure(*old(self), mid, peer_id, unreachable_addresses(*error)));
                self.queries.fail_peer(&peer_id);
            },
        }
    }

    /// Handles a closed connection.
    pub fn on_connection_closed(
        &mut self,
        peer_id: PeerId,
        connection_id: ConnectionId,
        remaining_established: usize,
    )
        requires
            old(self).wf(),
        ensures
            final(self).wf(),
            closed(*old(self), *final(self), peer_id, connection_id, remaining_established),
    {
        self.connections.remove(&connection_id);
        if remaining_established == 0 {
            self.queries.fail_peer(&peer_id);
            let ghost t = self.kbuckets@;
            let ghost mid = *self;
            self.connection_updated(
                peer_id,
                None,
                NodeStatus::Disconnected,
                Moment { nanos: 0 },
            );
            proof {
                match t.place_of(peer_id) {
                    Place::Pending(i) => {
                        t.lemma_place(key_of_peer(peer_id));
                        assert(t.with_pending_addrs(i, t.pending[i].node.addrs).pending
                            =~= t.pending);
                    },
                    _ => {},
                }
                assert(self.kbuckets@ == disconnected_in(t, peer_id));
                lemma_disconnected(t, peer_id);
                lemma_connected_without(self.kbuckets@, self.connected_peers@, peer_id);
            }
            remove_peer(&mut self.connected_peers, &peer_id);
        }
    }

    /// Remembers a new connection, and takes the requests that waited for it.
    fn preload_new_handler(&mut self, connection_id: ConnectionId, peer: PeerId) -> (r: Vec<
        HandlerIn,
    >)
        requires
            old(self).wf(),
        ensures
            final(self).wf(),
            *final(self) == (Behaviour {
                connections: final(self).connections,
                queries: final(self).queries,
                ..*old(self)
            }),
            final(self).connections.entries@ == entries_insert(
                old(self).connections.entries@,
                connection_id,
                peer,
            ),
            each_query(old(self).queries, final(self).queries, rpc_taken(peer)),
            r@ == taken_rpcs(old(self).queries.queries.entries@, peer),
    {
        self.connections.insert(connection_id, peer);
        self.queries.take_rpcs(&peer)
    }

    /// Handles a new connection that the remote peer dialed.
    pub fn handle_established_inbound_connection(
        &mut self,
        connection_id: ConnectionId,
        peer: PeerId,
        local_addr: &Multiaddr,
        remote_addr: &Multiaddr,
    ) -> (r: NewHandler)
        requires
            old(self).wf(),
        ensures
            final(self).wf(),
            connection_accepted(
                *old(self),
                *final(self),
                connection_id,
                peer,
                *local_addr,
                *remote_addr,
                r,
            ),
    {
        let endpoint = ConnectedPoint::Listener {
            local_addr: local_addr.clone(),
            send_back_addr: remote_addr.clone(),
        };
        let preloaded = self.preload_new_handler(connection_id, peer);
        NewHandler { endpoint, remote_peer_id: peer, mode: self.mode, preloaded }
    }

    /// Handles a new connection that the local node dialed.
    pub fn handle_established_outbound_connection(
        &mut self,
        connection_id: ConnectionId,
        peer: PeerId,
        addr: &Multiaddr,
        role_override: Endpoint,
        port_use: PortUse,
    ) -> (r: NewHandler)
        requires
            old(self).wf(),
        ensures
            final(self).wf(),
            connection_dialed(
                *old(self),
                *final(self),
                connection_id,
                peer,
                *addr,
                role_override,
                port_use,
                r,
            ),
    {
        let endpoint = ConnectedPoint::Dialer { address: addr.clone(), role_override, port_use };
        let preloaded = self.preload_new_handler(connection_id, peer);
        NewHandler { endpoint, remote_peer_id: peer, mode: self.mode, preloaded }
    }

    /// The addresses at which a peer is dialed.
    pub fn handle_pending_outbound_connection(&self, maybe_peer: Option<PeerId>) -> (r: Vec<
        Multiaddr,
    >)
        requires
            self.wf(),
        ensures
            r@ == dialing_addresses(*self, maybe_peer),
    {
        let peer_id = match maybe_peer {
            None => return Vec::new(),
            Some(peer) => peer,
        };
        let key = KeyBytes::from_peer(&peer_id);
        let mut peer_addrs = match self.kbuckets.entry(&key) {
            Some(Entry::Present(i)) => self.kbuckets.show_node(i).addresses.into_vec(),
            _ => Vec::new(),
        };
        let ghost own = peer_addrs@;
        let ghost entries = self.queries.queries.entries@;
        let n: usize = self.queries.queries.entries.len();
        let mut i: usize = 0;
        assert(peer_addrs@ =~= own + learned_addresses(entries.take(0), peer_id));
        while i < n
            invariant
                n == entries.len(),
                i <= n,
                self.wf(),
                entries == self.queries.queries.entries@,
                peer_addrs@ == own + learned_addresses(entries.take(i as int), peer_id),
            decreases n - i,
        {
            let ghost so_far = peer_addrs@;
            let ghost views = addr_views(entries[i as int].1.peers.addresses.entries@);
            proof {
                assert(entries[i as int].1.wf());
                lemma_addr_views_key(entries[i as int].1.peers.addresses.entries@, peer_id);
                assert(entries.take(i + 1).drop_last() =~= entries.take(i as int));
                assert(entries.take(i + 1).last() == entries[i as int]);
            }
            if let Some(addrs) = self.queries.queries.entries[i].1.peers.addresses.get(&peer_id) {
                let mut more = addrs.clone();
                assert(more@ =~= addrs@);
                peer_addrs.append(&mut more);
            }
            proof {
                assert(peer_addrs@ =~= so_far + addrs_of(views, peer_id));
                assert(peer_addrs@ =~= own + learned_addresses(entries.take(i + 1), peer_id));
            }
            i = i + 1;
        }
        proof {
            assert(entries.take(n as int) =~= entries);
            assert(peer_addrs@ =~= dialing_addresses(*self, maybe_peer));
        }
        peer_addrs
    }

    /// Handles what the swarm tells.
    pub fn on_swarm_event(&mut self, event: FromSwarm)
        requires
            old(self).wf(),
            event matches FromSwarm::DialFailure { peer_id: Some(_), error, .. } ==> error
                != DialError::DialPeerConditionFalse(PeerCondition::Always),
        ensures
            final(self).wf(),
            news_handled(*old(self), *final(self), event),
    {
        match event {
            FromSwarm::ConnectionEstablished { peer_id, failed_addresses, other_established } => {
                self.on_connection_established(peer_id, &failed_addresses, other_established);
            },
            FromSwarm::ConnectionClosed { peer_id, connection_id, remaining_established, .. } => {
                self.on_connection_closed(peer_id, connection_id, remaining_established);
            },
            FromSwarm::AddressChange { peer_id, old: before, new: after } => {
                self.on_address_change(peer_id, &before, &after);
            },
            FromSwarm::DialFailure { peer_id, error, .. } => {
                self.on_dial_failure(peer_id, &error);
            },
            FromSwarm::NewListenAddr { listener_id, addr } => {
                add_listen(&mut self.listen_addresses, listener_id, &addr);
                if is_empty_set(&self.connected_peers) {
                    self.bootstrap_status.trigger();
                }
            },
            FromSwarm::ExpiredListenAddr { listener_id, addr } => {
                expire_listen(&mut self.listen_addresses, listener_id, &addr);
            },
            FromSwarm::ExternalAddrConfirmed { addr } => {
                let changed = confirm_external(&mut self.external_addresses, &addr);
                if self.auto_mode && changed {
                    self.determine_mode_from_external_addresses();
                }
            },
            FromSwarm::ExternalAddrExpired { addr } => {
                let changed = expire_external(&mut self.external_addresses, &addr);
                if self.auto_mode && changed {
                    self.determine_mode_from_external_addresses();
                }
            },
            FromSwarm::Other => {},
        }
    }
}

} // verus!
