//! Laws on what polling does and yields, and on the mode and the connections of the node.

use libp2p_core::Multiaddr;
use libp2p_identity::PeerId;
use libp2p_swarm::ConnectionId;
use vstd::prelude::*;

use crate::assoc::lemma_filtered;
use crate::assoc::with_item;
use crate::kad::behaviour::dials_peer;
use crate::kad::behaviour::told;
use crate::kad::behaviour::Behaviour;
use crate::kad::behaviour::Request;
use crate::kad::contact_laws::calls_up;
use crate::kad::contact_laws::knows;
use crate::kad::events::Event;
use crate::kad::inbound::event_handled;
use crate::kad::inbound::event_handled_now;
use crate::kad::kbucket::awaits_other;
use crate::kad::kbucket::NodeStatus;
use crate::kad::kbucket::NodeView;
use crate::kad::kbucket::Place;
use crate::kad::kbucket::TableView;
use crate::kad::key::key_of_peer;
use crate::kad::poll::drained;
use crate::kad::poll::PollOutput;
use crate::kad::protocol::HandlerEvent;
use crate::kad::record::RecordStore;
use crate::kad::record_laws::shown_by;
use crate::kad::store_laws::lemma_same_filter;
use crate::kad::store_laws::queues_also;
use crate::kad::table_laws::asks_if_few;
use crate::kad::table_laws::could_leave;
use crate::kad::table_laws::crowded;
use crate::kad::table_laws::enters;
use crate::kad::table_laws::gains;
use crate::kad::table_laws::is_next_to_leave;
use crate::kad::table_laws::lemma_crowded;
use crate::kad::table_laws::lemma_enters;
use crate::kad::table_laws::lemma_gains;
use crate::kad::table_laws::lemma_may_wait;
use crate::kad::table_laws::lemma_news;
use crate::kad::table_laws::may_wait;
use crate::kad::table_laws::same_bucket;
use crate::kad::table_laws::tells_news;
use crate::net::is_present;
use crate::swarm::ConnectedPoint;
use crate::swarm::ToSwarm;
use crate::time::Moment;

verus! {

////////////////////////////////////////////////////////////////////////////////
// What a spoken protocol changes

/// The address at which a connection was dialed, if it was.
pub open spec fn dialed_at(endpoint: ConnectedPoint) -> Option<Multiaddr> {
    match endpoint {
        ConnectedPoint::Dialer { address, .. } => Some(address),
        ConnectedPoint::Listener { .. } => None,
    }
}

/// Whether the addresses of a peer have gained one, if one is given.
pub open spec fn gains_if(
    before: Seq<Multiaddr>,
    after: Seq<Multiaddr>,
    address: Option<Multiaddr>,
) -> bool {
    match address {
        Some(a) => gains(before, after, a),
        None => after == before,
    }
}

/// Whether an event reports whether a peer speaks the protocol, over a connection that was made as
/// given.
pub open spec fn speaks(event: HandlerEvent, endpoint: ConnectedPoint, status: NodeStatus) -> bool {
    match event {
        HandlerEvent::ProtocolConfirmed { endpoint: e } => e == endpoint && status
            == NodeStatus::Connected,
        HandlerEvent::ProtocolNotSupported { endpoint: e } => e == endpoint && status
            == NodeStatus::Disconnected,
        _ => false,
    }
}

/// A peer of the routing table that speaks the protocol is connected in it, and one that does not
/// is disconnected; the address that it was dialed at is added. If its status has changed, it is
/// the latest one of the table, and nobody waits any longer for the place that was next to become
/// free. A peer that waits for a place is changed alike.
pub proof fn law_spoken_protocol_is_noted<S: RecordStore>(
    before: Behaviour<S>,
    after: Behaviour<S>,
    source: PeerId,
    connection: ConnectionId,
    event: HandlerEvent,
    endpoint: ConnectedPoint,
    status: NodeStatus,
    now: Moment,
    i: int,
    j: int,
)
    requires
        before.wf(),
        event_handled(before, after, source, connection, event, now),
        speaks(event, endpoint, status),
    ensures
        ({
            let t = before.kbuckets@;
            let t2 = after.kbuckets@;
            let address = dialed_at(endpoint);
            &&& 0 <= i < t.nodes.len() && key_of_peer(t.nodes[i].peer) == key_of_peer(source) ==> {
                let node = t.nodes[i];
                let at = if node.status == status {
                    i
                } else {
                    t.nodes.len() - 1
                };
                let node2 = t2.nodes[at];
                let freed = node.status != status && status == NodeStatus::Connected
                    && is_next_to_leave(t, node.peer, i);
                &&& t2.nodes.len() == t.nodes.len()
                &&& node2.peer == node.peer
                &&& node2.status == status
                &&& gains_if(node.addrs, node2.addrs, address)
                &&& t2.nodes.remove(at) == t.nodes.remove(i)
                &&& !freed ==> t2.pending == t.pending
                &&& freed && 0 <= j < t.pending.len() ==> (t2.pending.contains(t.pending[j])
                    <==> !same_bucket(t, t.pending[j].node.peer, node.peer))
                &&& node2.addrs == node.addrs ==> after.queued_events@ == before.queued_events@
                &&& node2.addrs != node.addrs ==> {
                    &&& queues_also(before.queued_events@, after.queued_events@)
                    &&& tells_news(
                        after.queued_events@.last(),
                        t,
                        source,
                        false,
                        node2.addrs,
                        None,
                    )
                }
            }
            &&& 0 <= i < t.pending.len() && key_of_peer(t.pending[i].node.peer) == key_of_peer(
                source,
            ) ==> {
                &&& t2.nodes == t.nodes
                &&& t2.pending.len() == t.pending.len()
                &&& t2.pending[i].node.peer == t.pending[i].node.peer
                &&& t2.pending[i].node.status == status
                &&& t2.pending[i].replace == t.pending[i].replace
                &&& gains_if(t.pending[i].node.addrs, t2.pending[i].node.addrs, address)
                &&& 0 <= j < t.pending.len() && j != i ==> t2.pending[j] == t.pending[j]
                &&& after.queued_events == before.queued_events
            }
        }),
        after.store == before.store,
        after.queries == before.queries,
        after.connected_peers == before.connected_peers,
{
    let t = before.kbuckets@;
    let t2 = after.kbuckets@;
    let key = key_of_peer(source);
    let address = dialed_at(endpoint);
    let events = after.queued_events@;
    let n = before.queued_events@.len() as int;
    t.lemma_place(key);
    if 0 <= i < t.nodes.len() && key_of_peer(t.nodes[i].peer) == key {
        t.lemma_present(i);
        let node = t.nodes[i];
        let at = if node.status == status {
            i
        } else {
            t.nodes.len() - 1
        };
        assert(t2.nodes.remove(at) =~= t.nodes.remove(i));
        let b = t.bucket(node.key());
        lemma_next(t, node.peer, i);
        if node.status != status && status == NodeStatus::Connected && t.stalest_at(b, i)
            && 0 <= j < t.pending.len() {
            lemma_filtered(t.pending, awaits_other(t.local_key(), b), t.pending[j]);
            assert(t.pending.contains(t.pending[j]));
        }
        if let Some(a) = address {
            lemma_gains(node.addrs, a);
            if !node.addrs.contains(a) {
                assert(events.subrange(0, n) =~= before.queued_events@);
                lemma_news(events.last(), t, source, false, with_item(node.addrs, a), None);
            }
        }
    }
    if 0 <= i < t.pending.len() && key_of_peer(t.pending[i].node.peer) == key {
        t.lemma_waiting(i);
        if let Some(a) = address {
            lemma_gains(t.pending[i].node.addrs, a);
        }
    }
}

/// The peer that has been disconnected longest is the next to leave.
proof fn lemma_next(t: TableView, p: PeerId, i: int)
    ensures
        t.stalest_at(t.bucket(key_of_peer(p)), i) <==> is_next_to_leave(t, p, i),
{
    let b = t.bucket(key_of_peer(p));
    assert forall|j: int| #[trigger] t.disconnected_at(b, j) <==> could_leave(t, p, j) by {}
    if t.stalest_at(b, i) {
        assert forall|j: int| 0 <= j < i implies !(#[trigger] could_leave(t, p, j)) by {
            assert(!t.disconnected_at(b, j));
        }
    }
    if is_next_to_leave(t, p, i) {
        assert forall|j: int| 0 <= j < i implies !(#[trigger] t.disconnected_at(b, j)) by {
            assert(!could_leave(t, p, j));
        }
    }
}

/// A peer that speaks the protocol and that the routing table does not know enters it with the
/// address that it was dialed at, where peers enter as they connect; else the application is told
/// that it could. Without such an address it is told that the peer cannot be reached. A peer that
/// does not speak the protocol does not enter.
pub proof fn law_connected_peer_enters_table<S: RecordStore>(
    before: Behaviour<S>,
    after: Behaviour<S>,
    source: PeerId,
    connection: ConnectionId,
    event: HandlerEvent,
    endpoint: ConnectedPoint,
    status: NodeStatus,
) -> (now: Moment)
    requires
        before.wf(),
        event_handled_now(before, after, source, connection, event),
        speaks(event, endpoint, status),
        !knows(before.kbuckets@, source),
        key_of_peer(source) != key_of_peer(before.local_peer_id),
    ensures
        shown_by(before.clock, now),
        status == NodeStatus::Disconnected ==> after == before,
        status == NodeStatus::Connected ==> ({
            let t = before.kbuckets@;
            let old_events = before.queued_events@;
            let events = after.queued_events@;
            let n = old_events.len() as int;
            let auto = before.kbucket_inserts is OnConnected;
            &&& old_events.is_prefix_of(events)
            &&& dialed_at(endpoint) is None ==> {
                &&& after.kbuckets == before.kbuckets
                &&& events.len() == n + 1
                &&& says(events[n], Event::UnroutablePeer { peer: source })
            }
            &&& dialed_at(endpoint) matches Some(address) ==> {
                let node = NodeView {
                    peer: source,
                    addrs: seq![address],
                    status: NodeStatus::Connected,
                };
                let routable = Event::RoutablePeer { peer: source, address };
                &&& !auto ==> {
                    &&& after.kbuckets == before.kbuckets
                    &&& events.len() == n + 1
                    &&& says(events[n], routable)
                }
                &&& auto ==> enters(t, after.kbuckets@, node, now)
                &&& auto && !crowded(t, source) ==> {
                    &&& events.len() == n + 1
                    &&& tells_news(events[n], t, source, true, seq![address], None)
                    &&& asks_if_few(before, after)
                }
                &&& auto && crowded(t, source) && may_wait(t, node) ==> {
                    &&& says(events[n], Event::PendingRoutablePeer { peer: source, address })
                    &&& exists|i: int| #[trigger]
                        is_next_to_leave(t, source, i) && {
                            let calls = !before.connected_peers@.contains(t.nodes[i].peer);
                            &&& !calls ==> events.len() == n + 1
                            &&& calls ==> events.len() == n + 2 && calls_up(
                                events[n + 1],
                                t.nodes[i].peer,
                            )
                        }
                }
                &&& auto && crowded(t, source) && !may_wait(t, node) ==> {
                    &&& events.len() == n + 1
                    &&& says(events[n], routable)
                }
            }
        }),
{
    let now = choose|now: Moment|
        is_present(before.clock, now) && #[trigger] event_handled(
            before,
            after,
            source,
            connection,
            event,
            now,
        );
    let t = before.kbuckets@;
    t.lemma_place(key_of_peer(source));
    match t.place_of(source) {
        Place::Present(i) => {
            assert(key_of_peer(t.nodes[i].peer) == key_of_peer(source));
        },
        Place::Pending(i) => {
            assert(key_of_peer(t.pending[i].node.peer) == key_of_peer(source));
        },
        _ => {},
    }
    let events = after.queued_events@;
    let n = before.queued_events@.len() as int;
    if status == NodeStatus::Connected {
        if let Some(address) = dialed_at(endpoint) {
            if before.kbucket_inserts is OnConnected {
                let node = NodeView {
                    peer: source,
                    addrs: seq![address],
                    status: NodeStatus::Connected,
                };
                lemma_enters(t, node, now);
                lemma_crowded(t, source);
                lemma_may_wait(t, node);
                if !crowded(t, source) {
                    lemma_news(events.last(), t, source, true, seq![address], None);
                } else if may_wait(t, node) {
                    let b = t.bucket(node.key());
                    let told_pending = before.queued_events@.push(
                        told(Event::PendingRoutablePeer { peer: source, address }),
                    );
                    let i = choose|i: int| #[trigger]
                        t.stalest_at(b, i) && if before.connected_peers@.contains(t.nodes[i].peer) {
                            events == told_pending
                        } else {
                            &&& events == told_pending.push(events.last())
                            &&& dials_peer(events.last(), t.nodes[i].peer)
                        };
                    assert(is_next_to_leave(t, source, i));
                    assert(events[n] == told_pending[n]);
                    if !before.connected_peers@.contains(t.nodes[i].peer) {
                        assert(told_pending.push(events.last()).len() == n + 2);
                    }
                }
            }
        }
        assert(events.subrange(0, n) =~= before.queued_events@);
    }
    now
}

/// Whether a request hands an event to the application.
pub open spec fn says(request: Request, event: Event) -> bool {
    request matches ToSwarm::GenerateEvent(e) && e == event
}

////////////////////////////////////////////////////////////////////////////////
// What is yielded

/// Whether the peer that waits at `i` has waited long enough.
pub open spec fn is_due(t: TableView, i: int, now: Moment) -> bool {
    now.nanos >= t.pending[i].replace.nanos
}

/// Whether there is no place for the peer that waits at `i`: its bucket is crowded, and none of its
/// peers is disconnected.
pub open spec fn has_no_place(t: TableView, i: int) -> bool {
    let p = t.pending[i].node.peer;
    crowded(t, p) && forall|k: int| !(#[trigger] could_leave(t, p, k))
}

/// Whether a waiting peer has taken a place: a free one, or else that of the peer which is next to
/// leave.
pub open spec fn takes_place(
    t: TableView,
    t2: TableView,
    node: NodeView,
    evicted: Option<PeerId>,
) -> bool {
    &&& !crowded(t, node.peer) ==> evicted is None && t2.nodes == t.nodes.push(node)
    &&& crowded(t, node.peer) ==> exists|k: int| #[trigger]
        is_next_to_leave(t, node.peer, k) && evicted == Some(t.nodes[k].peer) && t2.nodes
            == t.nodes.remove(k).push(node)
}

/// Which waiting peer gets its place.
proof fn lemma_applied_first(t: TableView, from: int, now: Moment) -> (i: int)
    requires
        t.wf(),
        0 <= from <= t.pending.len(),
    ensures
        ({
            let (t2, applied) = t.applied_first(from, now);
            &&& t2.local == t.local && t2.size == t.size && t2.timeout == t.timeout
            &&& applied is None ==> {
                &&& t2.nodes == t.nodes
                &&& forall|k: int|
                    from <= k < t.pending.len() && #[trigger] is_due(t, k, now) ==> has_no_place(
                        t,
                        k,
                    )
            }
            &&& applied matches Some(a) ==> {
                &&& from <= i < t.pending.len()
                &&& is_due(t, i, now)
                &&& !has_no_place(t, i)
                &&& a.inserted == t.pending[i].node
                &&& takes_place(t, t2, a.inserted, a.evicted)
                &&& forall|k: int|
                    from <= k < i && #[trigger] is_due(t, k, now) ==> has_no_place(t, k)
            }
            &&& forall|k: int|
                0 <= k < t.pending.len() && !(#[trigger] is_due(t, k, now))
                    ==> t2.pending.contains(t.pending[k])
        }),
    decreases t.pending.len() - from,
{
    if from >= t.pending.len() {
        assert forall|k: int|
            0 <= k < t.pending.len() && !(#[trigger] is_due(
                t,
                k,
                now,
            )) implies t.pending.contains(t.pending[k]) by {}
        0
    } else if now.nanos >= t.pending[from].replace.nanos {
        let (next, applied) = t.applied(from);
        let node = t.pending[from].node;
        let p = node.peer;
        let b = t.bucket(node.key());
        assert(is_due(t, from, now));
        lemma_crowded(t, p);
        if exists|k: int| t.disconnected_at(b, k) {
            let k0 = choose|k: int| t.disconnected_at(b, k);
            assert(could_leave(t, p, k0));
            let k1 = t.lemma_stalest(b, k0);
            let k = choose|k: int| t.stalest_at(b, k);
            assert(t.stalest_at(b, k));
            lemma_next(t, p, k);
        } else {
            assert forall|k: int| !(#[trigger] could_leave(t, p, k)) by {
                assert(!t.disconnected_at(b, k));
            }
        }
        assert forall|k: int|
            0 <= k < t.pending.len() && k != from implies next.pending.contains(
            #[trigger] t.pending[k],
        ) by {
            let x = if k < from {
                k
            } else {
                k - 1
            };
            assert(next.pending[x] == t.pending[k]);
        }
        if applied is Some {
            assert(!has_no_place(t, from));
            from
        } else {
            assert(has_no_place(t, from));
            t.lemma_pending_remove_wf(from);
            let i = lemma_applied_first(next, from, now);
            assert(next.nodes == t.nodes);
            assert forall|k: int| from < k < t.pending.len() implies next.pending[k - 1]
                == #[trigger] t.pending[k] by {}
            assert forall|q: PeerId| crowded(next, q) == crowded(t, q) by {
                lemma_crowded(t, q);
                lemma_crowded(next, q);
            }
            assert forall|q: PeerId, k: int| #[trigger]
                could_leave(next, q, k) == could_leave(t, q, k) by {}
            assert forall|k: int|
                from <= k < next.pending.len() implies #[trigger] is_due(next, k, now) == is_due(
                t,
                k + 1,
                now,
            ) && has_no_place(next, k) == has_no_place(t, k + 1) by {
                assert(next.pending[k] == t.pending[k + 1]);
                lemma_no_place(next, t, k, k + 1);
            }
            let (t2, later) = next.applied_first(from, now);
            let top = if later is Some {
                i + 1
            } else {
                t.pending.len() as int
            };
            assert forall|k: int| from <= k < top && #[trigger] is_due(t, k, now) implies has_no_place(
                t,
                k,
            ) by {
                if k > from {
                    assert(is_due(next, k - 1, now));
                }
            }
            if let Some(a) = later {
                assert(next.pending[i] == t.pending[i + 1]);
                assert(is_due(next, i, now));
                lemma_same_place(next, t, t2, a.inserted, a.evicted);
            }
            assert forall|k: int|
                0 <= k < t.pending.len() && !(#[trigger] is_due(
                    t,
                    k,
                    now,
                )) implies t2.pending.contains(t.pending[k]) by {
                let x = if k < from {
                    k
                } else {
                    k - 1
                };
                assert(next.pending[x] == t.pending[k]);
                assert(!is_due(next, x, now));
            }
            i + 1
        }
    } else {
        assert(!is_due(t, from, now));
        lemma_applied_first(t, from + 1, now)
    }
}

/// Whether there is a place depends on the peers of a table, and on who waits.
proof fn lemma_no_place(t: TableView, t2: TableView, i: int, j: int)
    requires
        t.nodes == t2.nodes,
        t.local == t2.local,
        t.size == t2.size,
        0 <= i < t.pending.len(),
        0 <= j < t2.pending.len(),
        t.pending[i].node.peer == t2.pending[j].node.peer,
    ensures
        has_no_place(t, i) == has_no_place(t2, j),
{
    let p = t.pending[i].node.peer;
    lemma_same_crowd(t, t2, p);
    assert forall|k: int| #[trigger] could_leave(t, p, k) == could_leave(t2, p, k) by {}
    if has_no_place(t, i) {
        assert forall|k: int| !(#[trigger] could_leave(t2, p, k)) by {
            assert(!could_leave(t, p, k));
        }
    }
    if has_no_place(t2, j) {
        assert forall|k: int| !(#[trigger] could_leave(t, p, k)) by {
            assert(!could_leave(t2, p, k));
        }
    }
}

/// Whether a bucket is crowded depends on the peers of a table.
proof fn lemma_same_crowd(t: TableView, t2: TableView, p: PeerId)
    requires
        t.nodes == t2.nodes,
        t.local == t2.local,
        t.size == t2.size,
    ensures
        crowded(t, p) == crowded(t2, p),
{
    lemma_same_filter(
        t.nodes,
        |n: NodeView| same_bucket(t, n.peer, p),
        |n: NodeView| same_bucket(t2, n.peer, p),
    );
}

/// The place that is taken depends on the peers of a table.
proof fn lemma_same_place(
    t: TableView,
    u: TableView,
    t2: TableView,
    node: NodeView,
    evicted: Option<PeerId>,
)
    requires
        t.nodes == u.nodes,
        t.local == u.local,
        t.size == u.size,
        takes_place(t, t2, node, evicted),
    ensures
        takes_place(u, t2, node, evicted),
{
    lemma_same_crowd(t, u, node.peer);
    if crowded(t, node.peer) {
        let k = choose|k: int| #[trigger]
            is_next_to_leave(t, node.peer, k) && evicted == Some(t.nodes[k].peer) && t2.nodes
                == t.nodes.remove(k).push(node);
        assert forall|j: int| 0 <= j < k implies !(#[trigger] could_leave(u, node.peer, j)) by {
            assert(!could_leave(t, node.peer, j));
        }
        assert(is_next_to_leave(u, node.peer, k));
    }
}

/// What is queued is yielded first and in order. When nothing is, the first waiting peer that has
/// waited long enough, and for which there is a place, takes it; the application is told, and the
/// swarm is told an address of the peer. If there is none, the peers of the table stay.
pub proof fn law_next_is_yielded<S>(
    before: Behaviour<S>,
    after: Behaviour<S>,
    now: Moment,
    r: PollOutput,
    k: int,
) -> (i: int)
    requires
        before.wf(),
        drained(before, after, now, r),
    ensures
        ({
            let t = before.kbuckets@;
            let t2 = after.kbuckets@;
            let old_events = before.queued_events@;
            let events = after.queued_events@;
            &&& old_events.len() > 0 ==> {
                &&& r == PollOutput::Ready(old_events[0])
                &&& events == old_events.drop_first()
                &&& after.kbuckets == before.kbuckets
            }
            &&& old_events.len() == 0 && r is Ready ==> {
                let node = t.pending[i].node;
                &&& 0 <= i < t.pending.len() && is_due(t, i, now)
                &&& 0 <= k < i && is_due(t, k, now) ==> has_no_place(t, k)
                &&& exists|evicted: Option<PeerId>| #[trigger]
                    takes_place(t, t2, node, evicted) && tells_news(
                        r->Ready_0,
                        t,
                        node.peer,
                        true,
                        node.addrs,
                        evicted,
                    )
                &&& events.len() == 1
                &&& events[0] matches ToSwarm::NewExternalAddrOfPeer { peer_id, address } && peer_id
                    == node.peer && address == node.addrs[0]
            }
            &&& old_events.len() == 0 && !(r is Ready) ==> {
                &&& r is AskLookups
                &&& t2.nodes == t.nodes
                &&& events == old_events
                &&& 0 <= k < t.pending.len() && is_due(t, k, now) ==> has_no_place(t, k)
            }
            &&& 0 <= k < t.pending.len() && !is_due(t, k, now) ==> t2.pending.contains(
                t.pending[k],
            )
        }),
        after.queries == before.queries,
        after.store == before.store,
{
    let t = before.kbuckets@;
    let i = lemma_applied_first(t, 0, now);
    let (t2, applied) = t.applied_first(0, now);
    if before.queued_events@.len() == 0 {
        if let Some(a) = applied {
            assert(takes_place(t, t2, a.inserted, a.evicted));
            lemma_news(r->Ready_0, t2, a.inserted.peer, true, a.inserted.addrs, a.evicted);
            assert(tells_news(
                r->Ready_0,
                t,
                a.inserted.peer,
                true,
                a.inserted.addrs,
                a.evicted,
            ));
        }
    }
    i
}

} // verus!
