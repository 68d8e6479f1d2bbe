//! How the behaviour keeps its routing table.

use libp2p_core::Multiaddr;
use libp2p_identity::PeerId;
use vstd::prelude::*;

use crate::assoc::with_item;
use crate::kad::addresses::removed;
use crate::kad::addresses::replaced;
use crate::kad::addresses::Addresses;
use crate::kad::behaviour::dials_peer;
use crate::kad::behaviour::queued_one;
use crate::kad::behaviour::told;
use crate::kad::behaviour::Behaviour;
use crate::kad::behaviour::Request;
use crate::kad::bootstrap::Signal;
use crate::kad::config::BucketInserts;
use crate::kad::config::K_VALUE;
use crate::kad::events::Event;
use crate::kad::events::RoutingUpdate;
use crate::kad::kbucket::awaits_other;
use crate::kad::kbucket::has_peer;
use crate::kad::kbucket::lemma_filter_member;
use crate::kad::kbucket::Entry;
use crate::kad::kbucket::EntryView;
use crate::kad::kbucket::InsertResult;
use crate::kad::kbucket::KBucketRef;
use crate::kad::kbucket::NodeStatus;
use crate::kad::kbucket::NodeView;
use crate::kad::kbucket::Place;
use crate::kad::kbucket::TableView;
use crate::kad::key::is_bucket_range;
use crate::kad::key::key_of_bytes;
use crate::kad::key::key_of_peer;
use crate::kad::key::KeyBytes;
use crate::kad::pool::address_dropped;
use crate::kad::pool::address_swapped;
use crate::kad::pool::each_query;
use crate::kad::table::shows_bucket_of;
use crate::kad::table::shows_buckets;
use crate::net::contains_peer;
use crate::net::dial_peer;
use crate::net::is_present;
use crate::net::p2p_qualified;
use crate::net::with_p2p;
use crate::swarm::ConnectedPoint;
use crate::swarm::ToSwarm;
use crate::time::Moment;
use crate::time::MAX_ELAPSED;

verus! {

/// Whether a request tells the application that the routing table has changed.
pub open spec fn tells_update(
    request: Request,
    t: TableView,
    peer: PeerId,
    new_peer: bool,
    addrs: Seq<Multiaddr>,
    evicted: Option<PeerId>,
) -> bool {
    request matches ToSwarm::GenerateEvent(
        Event::RoutingUpdated { peer: p, is_new_peer, addresses, bucket_range, old_peer },
    ) && p == peer && is_new_peer == new_peer && addresses@ == addrs && is_bucket_range(
        bucket_range,
        t.bucket(key_of_peer(peer)),
    ) && old_peer == evicted
}

/// Whether `after` differs from `before` at most in the routing table, the queue and the
/// status of the bootstrap.
pub open spec fn routing_only<S>(before: Behaviour<S>, after: Behaviour<S>) -> bool {
    after == (Behaviour {
        kbuckets: after.kbuckets,
        queued_events: after.queued_events,
        bootstrap_status: after.bootstrap_status,
        ..before
    })
}

/// Whether a bootstrap is triggered if and only if few peers are known.
pub open spec fn triggered_if_low<S>(before: Behaviour<S>, after: Behaviour<S>) -> bool {
    if after.kbuckets@.nodes.len() < K_VALUE {
        before.bootstrap_status.signaled(after.bootstrap_status, Signal::Trigger)
    } else {
        after.bootstrap_status == before.bootstrap_status
    }
}

/// Whether only the routing table has changed, and into the given one.
pub open spec fn table_is<S>(before: Behaviour<S>, after: Behaviour<S>, t: TableView) -> bool {
    &&& after == (Behaviour { kbuckets: after.kbuckets, ..before })
    &&& after.kbuckets@ == t
}

/// The status that a new peer of the routing table has.
pub open spec fn status_of(connected: Set<PeerId>, peer: PeerId) -> NodeStatus {
    if connected.contains(peer) {
        NodeStatus::Connected
    } else {
        NodeStatus::Disconnected
    }
}

/// What adding an address of a peer changes, and what is returned.
pub open spec fn address_added<S>(
    before: Behaviour<S>,
    after: Behaviour<S>,
    peer: PeerId,
    address: Multiaddr,
    now: Moment,
    r: RoutingUpdate,
) -> bool {
    let t = before.kbuckets@;
    match p2p_qualified(address, peer) {
        Err(_) => r == RoutingUpdate::Failed && after == before,
        Ok(addr) => match t.place_of(peer) {
            Place::Local => r == RoutingUpdate::Failed && after == before,
            Place::Present(i) => {
                let addrs = with_item(t.nodes[i].addrs, addr);
                &&& r == RoutingUpdate::Success
                &&& routing_only(before, after)
                &&& after.bootstrap_status == before.bootstrap_status
                &&& after.kbuckets@ == t.with_node_addrs(i, addrs)
                &&& if t.nodes[i].addrs.contains(addr) {
                    after.queued_events == before.queued_events
                } else {
                    &&& queued_one(before.queued_events@, after.queued_events@)
                    &&& tells_update(after.queued_events@.last(), t, peer, false, addrs, None)
                }
            },
            Place::Pending(i) => {
                &&& r == RoutingUpdate::Pending
                &&& table_is(
                    before,
                    after,
                    t.with_pending_addrs(i, with_item(t.pending[i].node.addrs, addr)),
                )
            },
            Place::Absent => peer_added(
                before,
                after,
                NodeView {
                    peer,
                    addrs: seq![addr],
                    status: status_of(before.connected_peers@, peer),
                },
                now,
                r,
            ),
        },
    }
}

/// What adding an address of a peer changes at the present, and what is returned.
pub open spec fn address_added_now<S>(
    before: Behaviour<S>,
    after: Behaviour<S>,
    peer: PeerId,
    address: Multiaddr,
    r: RoutingUpdate,
) -> bool {
    exists|now: Moment|
        is_present(before.clock, now) && #[trigger] address_added(
            before,
            after,
            peer,
            address,
            now,
            r,
        )
}

/// What adding a peer that is not in the routing table changes, and what is returned.
pub open spec fn peer_added<S>(
    before: Behaviour<S>,
    after: Behaviour<S>,
    node: NodeView,
    now: Moment,
    r: RoutingUpdate,
) -> bool {
    let t = before.kbuckets@;
    let b = t.bucket(node.key());
    let request = after.queued_events@.last();
    &&& routing_only(before, after)
    &&& after.kbuckets@ == t.inserted(node, now)
    &&& if !t.full(b) {
        &&& r == RoutingUpdate::Success
        &&& triggered_if_low(before, after)
        &&& queued_one(before.queued_events@, after.queued_events@)
        &&& tells_update(request, t, node.peer, true, node.addrs, None)
    } else if t.must_wait(node) {
        &&& r == RoutingUpdate::Pending
        &&& after.bootstrap_status == before.bootstrap_status
        &&& queued_one(before.queued_events@, after.queued_events@)
        &&& exists|i: int| #[trigger]
            t.stalest_at(b, i) && dials_peer(request, t.nodes[i].peer)
    } else {
        &&& r == RoutingUpdate::Failed
        &&& after.bootstrap_status == before.bootstrap_status
        &&& after.queued_events == before.queued_events
    }
}

/// What removing an address of a peer changes, and what is returned: the peer, if it was its
/// last address.
pub open spec fn address_removed<S>(
    before: Behaviour<S>,
    after: Behaviour<S>,
    peer: PeerId,
    address: Multiaddr,
    r: Option<EntryView>,
) -> bool {
    let t = before.kbuckets@;
    match p2p_qualified(address, peer) {
        Err(_) => r is None && after == before,
        Ok(addr) => match t.place_of(peer) {
            Place::Present(i) => if t.nodes[i].addrs == seq![addr] {
                &&& r matches Some(e) && e@ == t.nodes[i]
                &&& table_is(before, after, t.with_nodes(t.nodes.remove(i)))
            } else {
                &&& r is None
                &&& table_is(
                    before,
                    after,
                    t.with_node_addrs(i, removed(t.nodes[i].addrs, addr)),
                )
            },
            Place::Pending(i) => if t.pending[i].node.addrs == seq![addr] {
                &&& r matches Some(e) && e@ == t.pending[i].node
                &&& table_is(before, after, t.with_pending(t.pending.remove(i)))
            } else {
                &&& r is None
                &&& table_is(
                    before,
                    after,
                    t.with_pending_addrs(i, removed(t.pending[i].node.addrs, addr)),
                )
            },
            _ => r is None && after == before,
        },
    }
}

/// What removing a peer changes, and what is returned.
pub open spec fn peer_removed<S>(
    before: Behaviour<S>,
    after: Behaviour<S>,
    peer: PeerId,
    r: Option<EntryView>,
) -> bool {
    let t = before.kbuckets@;
    match t.place_of(peer) {
        Place::Present(i) => {
            &&& r matches Some(e) && e@ == t.nodes[i]
            &&& table_is(before, after, t.with_nodes(t.nodes.remove(i)))
        },
        Place::Pending(i) => {
            &&& r matches Some(e) && e@ == t.pending[i].node
            &&& table_is(before, after, t.with_pending(t.pending.remove(i)))
        },
        _ => r is None && after == before,
    }
}

/// Where the peer at `i` stands once it has the given status.
pub open spec fn moved_to(t: TableView, i: int, status: NodeStatus) -> int {
    if t.nodes[i].status == status {
        i
    } else {
        t.nodes.len() - 1
    }
}

/// The table once the peer at `i` has the given status.
pub open spec fn restated(t: TableView, i: int, status: NodeStatus) -> TableView {
    if t.nodes[i].status == status {
        t
    } else {
        t.with_node_status(i, status)
    }
}

/// What a new status of the connection to a peer, and an address of it, change.
pub open spec fn connection_changed<S>(
    before: Behaviour<S>,
    after: Behaviour<S>,
    peer: PeerId,
    address: Option<Multiaddr>,
    status: NodeStatus,
    now: Moment,
) -> bool {
    let t = before.kbuckets@;
    match t.place_of(peer) {
        Place::Local => after == before,
        Place::Present(i) => {
            let j = moved_to(t, i, status);
            let t2 = restated(t, i, status);
            &&& routing_only(before, after)
            &&& after.bootstrap_status == before.bootstrap_status
            &&& match address {
                Some(addr) => {
                    let addrs = with_item(t.nodes[i].addrs, addr);
                    &&& after.kbuckets@ == t2.with_node_addrs(j, addrs)
                    &&& if t.nodes[i].addrs.contains(addr) {
                        after.queued_events == before.queued_events
                    } else {
                        &&& queued_one(before.queued_events@, after.queued_events@)
                        &&& tells_update(after.queued_events@.last(), t, peer, false, addrs, None)
                    }
                },
                None => after.kbuckets@ == t2 && after.queued_events == before.queued_events,
            }
        },
        Place::Pending(i) => {
            let addrs = match address {
                Some(addr) => with_item(t.pending[i].node.addrs, addr),
                None => t.pending[i].node.addrs,
            };
            table_is(before, after, t.with_pending_addrs(i, addrs).with_pending_status(i, status))
        },
        Place::Absent => if status != NodeStatus::Connected {
            after == before
        } else {
            match address {
                None => {
                    &&& after == (Behaviour { queued_events: after.queued_events, ..before })
                    &&& after.queued_events@ == before.queued_events@.push(
                        told(Event::UnroutablePeer { peer }),
                    )
                },
                Some(addr) => match before.kbucket_inserts {
                    BucketInserts::Manual => {
                        &&& after == (Behaviour { queued_events: after.queued_events, ..before })
                        &&& after.queued_events@ == before.queued_events@.push(
                            told(Event::RoutablePeer { peer, address: addr }),
                        )
                    },
                    BucketInserts::OnConnected => peer_connected(before, after, peer, addr, now),
                },
            }
        },
    }
}

/// What the connection of a peer that is not in the routing table, at a known address, changes.
pub open spec fn peer_connected<S>(
    before: Behaviour<S>,
    after: Behaviour<S>,
    peer: PeerId,
    addr: Multiaddr,
    now: Moment,
) -> bool {
    let t = before.kbuckets@;
    let node = NodeView { peer, addrs: seq![addr], status: NodeStatus::Connected };
    let b = t.bucket(node.key());
    let old_events = before.queued_events@;
    let events = after.queued_events@;
    &&& routing_only(before, after)
    &&& after.kbuckets@ == t.inserted(node, now)
    &&& if !t.full(b) {
        &&& triggered_if_low(before, after)
        &&& queued_one(old_events, events)
        &&& tells_update(events.last(), t, peer, true, seq![addr], None)
    } else if t.must_wait(node) {
        let told_pending = old_events.push(
            told(Event::PendingRoutablePeer { peer, address: addr }),
        );
        &&& after.bootstrap_status == before.bootstrap_status
        &&& exists|i: int| #[trigger]
            t.stalest_at(b, i) && if before.connected_peers@.contains(t.nodes[i].peer) {
                events == told_pending
            } else {
                &&& events == told_pending.push(events.last())
                &&& dials_peer(events.last(), t.nodes[i].peer)
            }
    } else {
        &&& after.bootstrap_status == before.bootstrap_status
        &&& events == old_events.push(told(Event::RoutablePeer { peer, address: addr }))
    }
}

/// The table after an address of a peer could not be reached.
pub open spec fn address_failed_in(t: TableView, peer: PeerId, addr: Multiaddr) -> TableView {
    match t.place_of(peer) {
        Place::Present(i) => t.with_node_addrs(i, removed(t.nodes[i].addrs, addr)),
        Place::Pending(i) => t.with_pending_addrs(i, removed(t.pending[i].node.addrs, addr)),
        _ => t,
    }
}

/// The table after an address of a peer changed.
pub open spec fn address_changed_in(
    t: TableView,
    peer: PeerId,
    old_addr: Multiaddr,
    new_addr: Multiaddr,
) -> TableView {
    match t.place_of(peer) {
        Place::Present(i) => t.with_node_addrs(
            i,
            replaced(t.nodes[i].addrs, old_addr, new_addr),
        ),
        Place::Pending(i) => t.with_pending_addrs(
            i,
            replaced(t.pending[i].node.addrs, old_addr, new_addr),
        ),
        _ => t,
    }
}

/// What the failure of an address of a peer changes.
pub open spec fn address_failure<S>(
    before: Behaviour<S>,
    after: Behaviour<S>,
    peer: PeerId,
    addr: Multiaddr,
) -> bool {
    &&& after == (Behaviour { kbuckets: after.kbuckets, queries: after.queries, ..before })
    &&& after.kbuckets@ == address_failed_in(before.kbuckets@, peer, addr)
    &&& each_query(before.queries, after.queries, address_dropped(peer, addr))
}

/// What the change of an address of a peer changes.
pub open spec fn address_change<S>(
    before: Behaviour<S>,
    after: Behaviour<S>,
    peer: PeerId,
    old_addr: Multiaddr,
    new_addr: Multiaddr,
) -> bool {
    &&& after == (Behaviour { kbuckets: after.kbuckets, queries: after.queries, ..before })
    &&& after.kbuckets@ == address_changed_in(before.kbuckets@, peer, old_addr, new_addr)
    &&& each_query(before.queries, after.queries, address_swapped(peer, old_addr, new_addr))
}

/// Changing addresses leaves the connected peers alone.
proof fn lemma_connected_readdressed(t: TableView, connected: Set<PeerId>, i: int, addrs: Seq<Multiaddr>)
    requires
        t.connected_within(connected),
    ensures
        0 <= i < t.nodes.len() ==> t.with_node_addrs(i, addrs).connected_within(connected),
        0 <= i < t.pending.len() ==> t.with_pending_addrs(i, addrs).connected_within(connected),
{
    if 0 <= i < t.nodes.len() {
        let t2 = t.with_node_addrs(i, addrs);
        assert forall|j: int|
            0 <= j < t2.nodes.len() && (#[trigger] t2.nodes[j]).status
                == NodeStatus::Connected implies has_peer(connected, t2.nodes[j].key()) by {
            assert(t2.nodes[j].key() == t.nodes[j].key());
        }
    }
    if 0 <= i < t.pending.len() {
        let t2 = t.with_pending_addrs(i, addrs);
        assert forall|j: int|
            0 <= j < t2.pending.len() && (#[trigger] t2.pending[j]).node.status
                == NodeStatus::Connected implies has_peer(
            connected,
            t2.pending[j].node.key(),
        ) by {
            assert(t2.pending[j].node.key() == t.pending[j].node.key());
        }
    }
}

/// Removing peers leaves the connected ones among the connected.
proof fn lemma_connected_removed(t: TableView, connected: Set<PeerId>, i: int)
    requires
        t.connected_within(connected),
    ensures
        0 <= i < t.nodes.len() ==> t.with_nodes(t.nodes.remove(i)).connected_within(connected),
        0 <= i < t.pending.len() ==> t.with_pending(t.pending.remove(i)).connected_within(
            connected,
        ),
{
    if 0 <= i < t.nodes.len() {
        let t2 = t.with_nodes(t.nodes.remove(i));
        assert forall|j: int|
            0 <= j < t2.nodes.len() && (#[trigger] t2.nodes[j]).status
                == NodeStatus::Connected implies has_peer(connected, t2.nodes[j].key()) by {
            assert(t2.nodes[j] == t.nodes[if j < i {
                j
            } else {
                j + 1
            }]);
        }
    }
    if 0 <= i < t.pending.len() {
        let t2 = t.with_pending(t.pending.remove(i));
        assert forall|j: int|
            0 <= j < t2.pending.len() && (#[trigger] t2.pending[j]).node.status
                == NodeStatus::Connected implies has_peer(
            connected,
            t2.pending[j].node.key(),
        ) by {
            assert(t2.pending[j] == t.pending[if j < i {
                j
            } else {
                j + 1
            }]);
        }
    }
}

/// A peer with a new status is connected only if it is among the connected.
proof fn lemma_connected_restated(
    t: TableView,
    connected: Set<PeerId>,
    i: int,
    status: NodeStatus,
)
    requires
        t.connected_within(connected),
        0 <= i < t.nodes.len(),
        status == NodeStatus::Connected ==> has_peer(connected, t.nodes[i].key()),
    ensures
        t.with_node_status(i, status).connected_within(connected),
{
    let t2 = t.with_node_status(i, status);
    lemma_connected_removed(t, connected, i);
    let less = t.with_nodes(t.nodes.remove(i));
    assert forall|j: int|
        0 <= j < t2.nodes.len() && (#[trigger] t2.nodes[j]).status
            == NodeStatus::Connected implies has_peer(connected, t2.nodes[j].key()) by {
        if j < t2.nodes.len() - 1 {
            assert(t2.nodes[j] == less.nodes[j]);
        } else {
            assert(t2.nodes[j].key() == t.nodes[i].key());
        }
    }
    let b = t.bucket(t.nodes[i].key());
    assert forall|j: int|
        0 <= j < t2.pending.len() && (#[trigger] t2.pending[j]).node.status
            == NodeStatus::Connected implies has_peer(connected, t2.pending[j].node.key()) by {
        if t2.pending != t.pending {
            lemma_filter_member(t.pending, awaits_other(t.local_key(), b), j);
            let k = t.pending.index_of(t2.pending[j]);
            assert(t.pending[k] == t2.pending[j]);
        }
    }
}

/// An inserted peer is connected only if it is among the connected.
proof fn lemma_connected_inserted(
    t: TableView,
    connected: Set<PeerId>,
    node: NodeView,
    now: Moment,
)
    requires
        t.connected_within(connected),
        node.status == NodeStatus::Connected ==> has_peer(connected, node.key()),
    ensures
        t.inserted(node, now).connected_within(connected),
{
    let t2 = t.inserted(node, now);
    assert forall|j: int|
        0 <= j < t2.nodes.len() && (#[trigger] t2.nodes[j]).status
            == NodeStatus::Connected implies has_peer(connected, t2.nodes[j].key()) by {
        if j < t.nodes.len() {
            assert(t2.nodes[j] == t.nodes[j]);
        }
    }
    assert forall|j: int|
        0 <= j < t2.pending.len() && (#[trigger] t2.pending[j]).node.status
            == NodeStatus::Connected implies has_peer(connected, t2.pending[j].node.key()) by {
        if j < t.pending.len() {
            assert(t2.pending[j] == t.pending[j]);
        }
    }
}

impl<TStore> Behaviour<TStore> {
    /// Adds an address of a peer to the routing table.
    ///
    /// If the routing table has changed, the application is told.
    pub fn add_address(&mut self, peer: &PeerId, address: Multiaddr) -> (r: RoutingUpdate)
        requires
            old(self).wf(),
        ensures
            final(self).wf(),
            address_added_now(*old(self), *final(self), *peer, address, r),
    {
        let now = self.now();
        self.add_address_at(peer, address, now)
    }

    /// As [`Behaviour::add_address`], at a given point in time.
    pub fn add_address_at(&mut self, peer: &PeerId, address: Multiaddr, now: Moment) -> (r:
        RoutingUpdate)
        requires
            old(self).wf(),
            now.nanos <= MAX_ELAPSED,
        ensures
            final(self).wf(),
            address_added(*old(self), *final(self), *peer, address, now, r),
    {
        let ghost before = *self;
        let ghost t = self.kbuckets@;
        let address = match with_p2p(address, *peer) {
            Ok(a) => a,
            Err(_) => return RoutingUpdate::Failed,
        };
        let key = KeyBytes::from_peer(peer);
        match self.kbuckets.entry(&key) {
            Some(Entry::Present(i)) => {
                proof {
                    lemma_connected_readdressed(
                        t,
                        self.connected_peers@,
                        i as int,
                        with_item(t.nodes[i as int].addrs, address),
                    );
                }
                if self.kbuckets.add_node_address(i, address) {
                    self.tell_update(peer, &key, i);
                }
                RoutingUpdate::Success
            },
            Some(Entry::Pending(i)) => {
                proof {
                    lemma_connected_readdressed(
                        t,
                        self.connected_peers@,
                        i as int,
                        with_item(t.pending[i as int].node.addrs, address),
                    );
                }
                self.kbuckets.add_pending_address(i, address);
                RoutingUpdate::Pending
            },
            Some(Entry::Absent) => {
                let addresses = Addresses::new(address);
                let status = if contains_peer(&self.connected_peers, peer) {
                    NodeStatus::Connected
                } else {
                    NodeStatus::Disconnected
                };
                let ghost node = NodeView { peer: *peer, addrs: addresses@, status };
                proof {
                    if status == NodeStatus::Connected {
                        assert(self.connected_peers@.contains(*peer));
                    }
                    lemma_connected_inserted(t, self.connected_peers@, node, now);
                }
                match self.kbuckets.insert(*peer, addresses.duplicate(), status, now) {
                    InsertResult::Inserted => {
                        self.bootstrap_on_low_peers();
                        let bucket_range = self.kbuckets.range_of(&key);
                        self.queued_events.push_back(
                            ToSwarm::GenerateEvent(
                                Event::RoutingUpdated {
                                    peer: *peer,
                                    is_new_peer: true,
                                    addresses,
                                    old_peer: None,
                                    bucket_range,
                                },
                            ),
                        );
                        RoutingUpdate::Success
                    },
                    InsertResult::Full => RoutingUpdate::Failed,
                    InsertResult::Pending { disconnected } => {
                        let opts = dial_peer(disconnected);
                        self.queued_events.push_back(ToSwarm::Dial { opts });
                        RoutingUpdate::Pending
                    },
                }
            },
            None => RoutingUpdate::Failed,
        }
    }

    /// Tells the application that the peer at `i` has a new address.
    fn tell_update(&mut self, peer: &PeerId, key: &KeyBytes, i: usize)
        requires
            old(self).wf(),
            *key == key_of_peer(*peer),
            *key != old(self).kbuckets@.local_key(),
            i < old(self).kbuckets@.nodes.len(),
        ensures
            final(self).wf(),
            *final(self) == (Behaviour { queued_events: final(self).queued_events, ..*old(self) }),
            queued_one(old(self).queued_events@, final(self).queued_events@),
            tells_update(
                final(self).queued_events@.last(),
                old(self).kbuckets@,
                *peer,
                false,
                old(self).kbuckets@.nodes[i as int].addrs,
                None,
            ),
    {
        let shown = self.kbuckets.show_node(i);
        let bucket_range = self.kbuckets.range_of(key);
        self.queued_events.push_back(
            ToSwarm::GenerateEvent(
                Event::RoutingUpdated {
                    peer: *peer,
                    is_new_peer: false,
                    addresses: shown.addresses,
                    old_peer: None,
                    bucket_range,
                },
            ),
        );
    }

    /// Triggers a bootstrap if few peers are known.
    fn bootstrap_on_low_peers(&mut self)
        requires
            old(self).wf(),
        ensures
            final(self).wf(),
            *final(self) == (Behaviour {
                bootstrap_status: final(self).bootstrap_status,
                ..*old(self)
            }),
            triggered_if_low(*old(self), *final(self)),
    {
        if self.kbuckets.len() < K_VALUE {
            self.bootstrap_status.trigger();
        }
    }

    /// Removes an address of a peer from the routing table. If it is the last one, the peer is
    /// removed and returned.
    pub fn remove_address(&mut self, peer: &PeerId, address: &Multiaddr) -> (r: Option<EntryView>)
        requires
            old(self).wf(),
        ensures
            final(self).wf(),
            address_removed(*old(self), *final(self), *peer, *address, r),
    {
        let ghost t = self.kbuckets@;
        let address = match with_p2p(address.clone(), *peer) {
            Ok(a) => a,
            Err(_) => return None,
        };
        let key = KeyBytes::from_peer(peer);
        match self.kbuckets.entry(&key) {
            Some(Entry::Present(i)) => {
                proof {
                    lemma_connected_readdressed(
                        t,
                        self.connected_peers@,
                        i as int,
                        removed(t.nodes[i as int].addrs, address),
                    );
                    lemma_connected_removed(t, self.connected_peers@, i as int);
                }
                if self.kbuckets.remove_node_address(i, &address).is_err() {
                    assert(t.nodes[i as int].addrs == seq![address]);
                    Some(self.kbuckets.remove_node(i))
                } else {
                    assert(t.nodes[i as int].addrs != seq![address]);
                    None
                }
            },
            Some(Entry::Pending(i)) => {
                proof {
                    lemma_connected_readdressed(
                        t,
                        self.connected_peers@,
                        i as int,
                        removed(t.pending[i as int].node.addrs, address),
                    );
                    lemma_connected_removed(t, self.connected_peers@, i as int);
                }
                if self.kbuckets.remove_pending_address(i, &address).is_err() {
                    assert(t.pending[i as int].node.addrs == seq![address]);
                    Some(self.kbuckets.remove_pending(i))
                } else {
                    assert(t.pending[i as int].node.addrs != seq![address]);
                    None
                }
            },
            _ => None,
        }
    }

    /// Removes a peer from the routing table.
    pub fn remove_peer(&mut self, peer: &PeerId) -> (r: Option<EntryView>)
        requires
            old(self).wf(),
        ensures
            final(self).wf(),
            peer_removed(*old(self), *final(self), *peer, r),
    {
        let ghost t = self.kbuckets@;
        let key = KeyBytes::from_peer(peer);
        match self.kbuckets.entry(&key) {
            Some(Entry::Present(i)) => {
                proof {
                    lemma_connected_removed(t, self.connected_peers@, i as int);
                }
                Some(self.kbuckets.remove_node(i))
            },
            Some(Entry::Pending(i)) => {
                proof {
                    lemma_connected_removed(t, self.connected_peers@, i as int);
                }
                Some(self.kbuckets.remove_pending(i))
            },
            _ => None,
        }
    }

    /// The buckets of the routing table that are not empty, from the closest to the farthest.
    pub fn kbuckets(&self) -> (r: Vec<KBucketRef>)
        requires
            self.wf(),
        ensures
            shows_buckets(r@, self.kbuckets@),
    {
        self.kbuckets.buckets()
    }

    /// The bucket of a key, or `None` if it is the local one.
    pub fn kbucket(&self, key: &Vec<u8>) -> (r: Option<KBucketRef>)
        requires
            self.wf(),
        ensures
            shows_bucket_of(r, self.kbuckets@, key_of_bytes(key@)),
    {
        let target = KeyBytes::new(key);
        self.kbuckets.bucket(&target)
    }

    /// Updates the routing table with the status of the connection to a peer, and an address
    /// of it.
    pub fn connection_updated(
        &mut self,
        peer: PeerId,
        address: Option<Multiaddr>,
        new_status: NodeStatus,
        now: Moment,
    )
        requires
            old(self).wf(),
            now.nanos <= MAX_ELAPSED,
            new_status == NodeStatus::Connected ==> old(self).connected_peers@.contains(peer),
        ensures
            final(self).wf(),
            connection_changed(*old(self), *final(self), peer, address, new_status, now),
    {
        let ghost before = *self;
        let ghost t = self.kbuckets@;
        let key = KeyBytes::from_peer(&peer);
        proof {
            t.lemma_place(key);
            if new_status == NodeStatus::Connected {
                assert(has_peer(self.connected_peers@, key));
            }
        }
        match self.kbuckets.entry(&key) {
            Some(Entry::Present(i)) => {
                let mut at: usize = i;
                if self.kbuckets.nodes[i].status != new_status {
                    proof {
                        assert(t.nodes[i as int] == self.kbuckets.nodes@[i as int]@);
                        lemma_connected_restated(
                            t,
                            self.connected_peers@,
                            i as int,
                            new_status,
                        );
                    }
                    self.kbuckets.set_node_status(i, new_status);
                    at = self.kbuckets.len() - 1;
                } else {
                    assert(t.nodes[i as int] == self.kbuckets.nodes@[i as int]@);
                }
                let ghost t2 = self.kbuckets@;
                assert(t2.nodes[at as int].addrs == t.nodes[i as int].addrs);
                if let Some(address) = address {
                    proof {
                        lemma_connected_readdressed(
                            t2,
                            self.connected_peers@,
                            at as int,
                            with_item(t2.nodes[at as int].addrs, address),
                        );
                    }
                    if self.kbuckets.add_node_address(at, address) {
                        self.tell_update(&peer, &key, at);
                    }
                }
            },
            Some(Entry::Pending(i)) => {
                let ghost old_status = t.pending[i as int].node.status;
                assert(t.pending[i as int] == self.kbuckets.pending@[i as int]@);
                if let Some(address) = address {
                    proof {
                        lemma_connected_readdressed(
                            t,
                            self.connected_peers@,
                            i as int,
                            with_item(t.pending[i as int].node.addrs, address),
                        );
                    }
                    self.kbuckets.add_pending_address(i, address);
                } else {
                    assert(t.with_pending_addrs(i as int, t.pending[i as int].node.addrs).pending
                        =~= t.pending);
                }
                let ghost t2 = self.kbuckets@;
                assert(t2.pending[i as int] == self.kbuckets.pending@[i as int]@);
                if self.kbuckets.pending[i].node.status != new_status {
                    proof {
                        let t3 = t2.with_pending_status(i as int, new_status);
                        assert forall|j: int|
                            0 <= j < t3.pending.len() && (#[trigger] t3.pending[j]).node.status
                                == NodeStatus::Connected implies has_peer(
                            self.connected_peers@,
                            t3.pending[j].node.key(),
                        ) by {
                            if j != i {
                                assert(t3.pending[j] == t2.pending[j]);
                            } else {
                                assert(t3.pending[j].node.key() == key);
                            }
                        }
                    }
                    self.kbuckets.set_pending_status(i, new_status);
                } else {
                    assert(t2.with_pending_status(i as int, new_status).pending =~= t2.pending);
                }
            },
            Some(Entry::Absent) => {
                let connected = match new_status {
                    NodeStatus::Connected => true,
                    NodeStatus::Disconnected => false,
                };
                if !connected {
                    return;
                }
                match address {
                    None => {
                        self.queued_events.push_back(
                            ToSwarm::GenerateEvent(Event::UnroutablePeer { peer }),
                        );
                    },
                    Some(address) => match self.kbucket_inserts {
                        BucketInserts::Manual => {
                            self.queued_events.push_back(
                                ToSwarm::GenerateEvent(Event::RoutablePeer { peer, address }),
                            );
                        },
                        BucketInserts::OnConnected => {
                            self.insert_connected(peer, &key, address, now);
                        },
                    },
                }
            },
            None => {},
        }
    }

    /// Inserts a connected peer that is not in the routing table.
    fn insert_connected(&mut self, peer: PeerId, key: &KeyBytes, address: Multiaddr, now: Moment)
        requires
            old(self).wf(),
            now.nanos <= MAX_ELAPSED,
            *key == key_of_peer(peer),
            old(self).connected_peers@.contains(peer),
            old(self).kbuckets@.place_of(peer) is Absent,
        ensures
            final(self).wf(),
            peer_connected(*old(self), *final(self), peer, address, now),
    {
        let ghost t = self.kbuckets@;
        let ghost node = NodeView { peer, addrs: seq![address], status: NodeStatus::Connected };
        proof {
            lemma_connected_inserted(t, self.connected_peers@, node, now);
            t.lemma_place(*key);
        }
        let addresses = Addresses::new(address.clone());
        match self.kbuckets.insert(peer, addresses.duplicate(), NodeStatus::Connected, now) {
            InsertResult::Inserted => {
                self.bootstrap_on_low_peers();
                let bucket_range = self.kbuckets.range_of(key);
                self.queued_events.push_back(
                    ToSwarm::GenerateEvent(
                        Event::RoutingUpdated {
                            peer,
                            is_new_peer: true,
                            addresses,
                            old_peer: None,
                            bucket_range,
                        },
                    ),
                );
            },
            InsertResult::Full => {
                self.queued_events.push_back(
                    ToSwarm::GenerateEvent(Event::RoutablePeer { peer, address }),
                );
            },
            InsertResult::Pending { disconnected } => {
                self.queued_events.push_back(
                    ToSwarm::GenerateEvent(Event::PendingRoutablePeer { peer, address }),
                );
                if !contains_peer(&self.connected_peers, &disconnected) {
                    let opts = dial_peer(disconnected);
                    self.queued_events.push_back(ToSwarm::Dial { opts });
                }
            },
        }
    }

    /// Handles an address of a peer that could not be reached: it is removed from the routing
    /// table, unless it is the only one, and no running query tries it any more.
    pub fn address_failed(&mut self, peer_id: PeerId, address: &Multiaddr)
        requires
            old(self).wf(),
        ensures
            final(self).wf(),
            address_failure(*old(self), *final(self), peer_id, *address),
    {
        let ghost t = self.kbuckets@;
        let key = KeyBytes::from_peer(&peer_id);
        match self.kbuckets.entry(&key) {
            Some(Entry::Present(i)) => {
                proof {
                    lemma_connected_readdressed(
                        t,
                        self.connected_peers@,
                        i as int,
                        removed(t.nodes[i as int].addrs, *address),
                    );
                }
                let _ = self.kbuckets.remove_node_address(i, address);
            },
            Some(Entry::Pending(i)) => {
                proof {
                    lemma_connected_readdressed(
                        t,
                        self.connected_peers@,
                        i as int,
                        removed(t.pending[i as int].node.addrs, *address),
                    );
                }
                let _ = self.kbuckets.remove_pending_address(i, address);
            },
            _ => {},
        }
        self.queries.drop_address(&peer_id, address);
    }

    /// Handles the change of the address of a connection: the routing table and the running
    /// queries get the new address in place of the old one.
    pub fn on_address_change(
        &mut self,
        peer: PeerId,
        before: &ConnectedPoint,
        after: &ConnectedPoint,
    )
        requires
            old(self).wf(),
        ensures
            final(self).wf(),
            address_change(
                *old(self),
                *final(self),
                peer,
                before.remote_address(),
                after.remote_address(),
            ),
    {
        let ghost t = self.kbuckets@;
        let old_addr = before.get_remote_address();
        let new_addr = after.get_remote_address();
        let key = KeyBytes::from_peer(&peer);
        match self.kbuckets.entry(&key) {
            Some(Entry::Present(i)) => {
                proof {
                    lemma_connected_readdressed(
                        t,
                        self.connected_peers@,
                        i as int,
                        replaced(t.nodes[i as int].addrs, *old_addr, *new_addr),
                    );
                }
                self.kbuckets.replace_node_address(i, old_addr, new_addr);
            },
            Some(Entry::Pending(i)) => {
                proof {
                    lemma_connected_readdressed(
                        t,
                        self.connected_peers@,
                        i as int,
                        replaced(t.pending[i as int].node.addrs, *old_addr, *new_addr),
                    );
                }
                self.kbuckets.replace_pending_address(i, old_addr, new_addr);
            },
            _ => {},
        }
        self.queries.swap_address(&peer, old_addr, new_addr);
    }
}

} // verus!
