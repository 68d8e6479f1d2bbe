//! Laws on the routing table: who enters it, who leaves it, and what it knows of its peers.

use libp2p_core::Multiaddr;
use libp2p_identity::PeerId;
use vstd::arithmetic::power2::lemma_pow2_unfold;
use vstd::prelude::*;

use crate::assoc::lemma_filtered;
use crate::assoc::lemma_first_index;
use crate::assoc::with_item;
use crate::assoc::without_item;
use crate::kad::addresses::replaced;
use crate::kad::behaviour::dials_peer;
use crate::kad::behaviour::Behaviour;
use crate::kad::behaviour::Request;
use crate::kad::bootstrap::Signal;
use crate::kad::connections::news_handled;
use crate::kad::contact_laws::calls_up;
use crate::kad::contact_laws::knows;
use crate::kad::events::Event;
use crate::kad::events::RoutingUpdate;
use crate::kad::kbucket::entry_views;
use crate::kad::kbucket::in_bucket;
use crate::kad::kbucket::peers_of;
use crate::kad::kbucket::EntryView;
use crate::kad::kbucket::KBucketRef;
use crate::kad::kbucket::NodeStatus;
use crate::kad::kbucket::NodeView;
use crate::kad::kbucket::Place;
use crate::kad::kbucket::TableView;
use crate::kad::key::key_of_peer;
use crate::kad::key::law_bucket_index_is_highest_bit;
use crate::kad::key::law_bucket_range_holds_its_distances;
use crate::kad::key::law_distance_is_a_metric;
use crate::kad::key::lemma_distance_order;
use crate::kad::key::lemma_pow2_monotonic;
use crate::kad::key::KeyBytes;
use crate::kad::order::law_by_distance_sorts;
use crate::kad::order::peer_distance;
use crate::kad::record_laws::shown_by;
use crate::kad::routing::address_added;
use crate::kad::routing::address_added_now;
use crate::kad::routing::address_failure;
use crate::kad::routing::address_removed;
use crate::kad::routing::peer_removed;
use crate::kad::routing::status_of;
use crate::kad::routing::tells_update;
use crate::kad::search_laws::far;
use crate::kad::search_laws::holds;
use crate::kad::search_laws::lemma_span;
use crate::kad::store_laws::lemma_same_filter;
use crate::kad::store_laws::queues_also;
use crate::kad::table::shows_bucket_of;
use crate::kad::table::shows_buckets;
use crate::net::is_present;
use crate::net::p2p_qualified;
use crate::swarm::FromSwarm;
use crate::swarm::ToSwarm;
use crate::time::MAX_ELAPSED;
use crate::time::Moment;

verus! {

////////////////////////////////////////////////////////////////////////////////
// Who enters

/// Whether two peers belong into the same bucket of a table.
pub open spec fn same_bucket(t: TableView, a: PeerId, b: PeerId) -> bool {
    t.bucket(key_of_peer(a)) == t.bucket(key_of_peer(b))
}

/// Whether the bucket of a peer holds as many peers as it may.
pub open spec fn crowded(t: TableView, p: PeerId) -> bool {
    t.nodes.filter(|n: NodeView| same_bucket(t, n.peer, p)).len() >= t.size
}

/// Whether the peer at `i` is disconnected and in the bucket of another.
pub open spec fn could_leave(t: TableView, p: PeerId, i: int) -> bool {
    0 <= i < t.nodes.len() && same_bucket(t, t.nodes[i].peer, p) && t.nodes[i].status
        == NodeStatus::Disconnected
}

/// Whether the peer at `i` is the first disconnected one in the bucket of another.
pub open spec fn is_next_to_leave(t: TableView, p: PeerId, i: int) -> bool {
    could_leave(t, p, i) && forall|j: int| 0 <= j < i ==> !(#[trigger] could_leave(t, p, j))
}

/// Whether a peer may wait for a place: it is connected, some peer of its bucket is not, and no
/// other peer waits for a place there.
pub open spec fn may_wait(t: TableView, node: NodeView) -> bool {
    &&& node.status == NodeStatus::Connected
    &&& exists|i: int| #[trigger] could_leave(t, node.peer, i)
    &&& forall|i: int|
        0 <= i < t.pending.len() ==> !same_bucket(t, (#[trigger] t.pending[i]).node.peer, node.peer)
}

/// Whether a table is what it should be once a peer that it does not know was to enter it: a
/// bucket with room takes the peer in; if it has none, the peer waits if it may, and is turned away
/// if not.
pub open spec fn enters(t: TableView, t2: TableView, node: NodeView, now: Moment) -> bool {
    let waits = crowded(t, node.peer) && may_wait(t, node);
    let n = t.pending.len() as int;
    &&& t2.local == t.local
    &&& t2.size == t.size
    &&& t2.timeout == t.timeout
    &&& t2.nodes == (if crowded(t, node.peer) {
        t.nodes
    } else {
        t.nodes.push(node)
    })
    &&& !waits ==> t2.pending == t.pending
    &&& waits ==> {
        &&& t2.pending.len() == n + 1
        &&& t.pending.is_prefix_of(t2.pending)
        &&& t2.pending[n].node == node
        &&& now.nanos <= MAX_ELAPSED ==> t2.pending[n].replace.nanos == now.nanos + t.timeout@
    }
}

/// A bucket is full if it is crowded.
pub proof fn lemma_crowded(t: TableView, p: PeerId)
    ensures
        t.full(t.bucket(key_of_peer(p))) <==> crowded(t, p),
{
    lemma_same_filter(
        t.nodes,
        in_bucket(t.local_key(), t.bucket(key_of_peer(p))),
        |n: NodeView| same_bucket(t, n.peer, p),
    );
}

/// A peer has to wait if it may, and its bucket is crowded.
pub proof fn lemma_may_wait(t: TableView, node: NodeView)
    ensures
        t.must_wait(node) <==> crowded(t, node.peer) && may_wait(t, node),
        forall|i: int| #[trigger]
            t.stalest_at(t.bucket(node.key()), i) ==> is_next_to_leave(t, node.peer, i),
{
    lemma_crowded(t, node.peer);
    let b = t.bucket(node.key());
    assert forall|i: int| t.disconnected_at(b, i) <==> #[trigger] could_leave(
        t,
        node.peer,
        i,
    ) by {}
    if exists|i: int| t.disconnected_at(b, i) {
        let i = choose|i: int| t.disconnected_at(b, i);
        assert(could_leave(t, node.peer, i));
    }
    if exists|i: int| #[trigger] could_leave(t, node.peer, i) {
        let i = choose|i: int| #[trigger] could_leave(t, node.peer, i);
        assert(t.disconnected_at(b, i));
    }
    if t.awaited(b) {
        let i = choose|i: int|
            0 <= i < t.pending.len() && t.bucket((#[trigger] t.pending[i]).node.key()) == b;
        assert(same_bucket(t, t.pending[i].node.peer, node.peer));
    }
    if !t.awaited(b) {
        assert forall|i: int| 0 <= i < t.pending.len() implies !same_bucket(
            t,
            (#[trigger] t.pending[i]).node.peer,
            node.peer,
        ) by {
            assert(t.bucket(t.pending[i].node.key()) != b);
        }
    }
    assert forall|i: int| #[trigger] t.stalest_at(b, i) implies is_next_to_leave(
        t,
        node.peer,
        i,
    ) by {
        assert forall|j: int| 0 <= j < i implies !(#[trigger] could_leave(t, node.peer, j)) by {
            assert(!t.disconnected_at(b, j));
        }
    }
}

/// The table that a peer was to be inserted into is the one that it was to enter.
pub proof fn lemma_enters(t: TableView, node: NodeView, now: Moment)
    ensures
        enters(t, t.inserted(node, now), node, now),
{
    lemma_crowded(t, node.peer);
    lemma_may_wait(t, node);
    let t2 = t.inserted(node, now);
    let n = t.pending.len() as int;
    if t2.pending.len() == n + 1 {
        assert(t2.pending.subrange(0, n) =~= t.pending);
    }
    lemma_span(Some(t.timeout));
}

/// Whether a request tells the application that the routing table knows a peer, or knows more of
/// it.
pub open spec fn tells_news(
    request: Request,
    t: TableView,
    peer: PeerId,
    is_new: bool,
    addrs: Seq<Multiaddr>,
    gone: Option<PeerId>,
) -> bool {
    request matches ToSwarm::GenerateEvent(
        Event::RoutingUpdated { peer: p, is_new_peer, addresses, bucket_range, old_peer },
    ) && p == peer && is_new_peer == is_new && addresses@ == addrs && old_peer == gone && {
        let d = key_of_peer(t.local).spec_distance(key_of_peer(peer))@;
        key_of_peer(peer) != key_of_peer(t.local) ==> bucket_range.0@ <= d <= bucket_range.1@
            && bucket_range.1@ == 2 * bucket_range.0@ - 1
    }
}

/// What is told of a changed routing table is the news.
pub proof fn lemma_news(
    request: Request,
    t: TableView,
    peer: PeerId,
    is_new: bool,
    addrs: Seq<Multiaddr>,
    gone: Option<PeerId>,
)
    requires
        tells_update(request, t, peer, is_new, addrs, gone),
    ensures
        tells_news(request, t, peer, is_new, addrs, gone),
{
    let a = key_of_peer(t.local);
    let b = key_of_peer(peer);
    law_distance_is_a_metric(a, b, b);
    if a != b {
        law_bucket_index_is_highest_bit(a.spec_distance(b));
    }
}

/// Whether a behaviour asks for a bootstrap soon if few peers are known, and only then.
pub open spec fn asks_if_few<S>(before: Behaviour<S>, after: Behaviour<S>) -> bool {
    after.bootstrap_status.signals@ == (if after.kbuckets@.nodes.len() < 20 {
        before.bootstrap_status.signals@.push(Signal::Trigger)
    } else {
        before.bootstrap_status.signals@
    })
}

/// Adding an address of a peer that the routing table does not know lets the peer enter it, with
/// the address and as connected as it is. The application is told if the peer is in, and who is
/// next to leave is dialed if the peer waits.
pub proof fn law_added_peer_enters_table<S>(
    before: Behaviour<S>,
    after: Behaviour<S>,
    peer: PeerId,
    address: Multiaddr,
    r: RoutingUpdate,
) -> (now: Moment)
    requires
        before.wf(),
        address_added_now(before, after, peer, address, r),
        !knows(before.kbuckets@, peer),
        key_of_peer(peer) != key_of_peer(before.local_peer_id),
    ensures
        shown_by(before.clock, now),
        p2p_qualified(address, peer) is Err ==> r == RoutingUpdate::Failed && after == before,
        p2p_qualified(address, peer) matches Ok(addr) ==> ({
            let t = before.kbuckets@;
            let node = NodeView {
                peer,
                addrs: seq![addr],
                status: if before.connected_peers@.contains(peer) {
                    NodeStatus::Connected
                } else {
                    NodeStatus::Disconnected
                },
            };
            let events = after.queued_events@;
            &&& enters(t, after.kbuckets@, node, now)
            &&& !crowded(t, peer) ==> {
                &&& r == RoutingUpdate::Success
                &&& queues_also(before.queued_events@, events)
                &&& tells_news(events.last(), t, peer, true, seq![addr], None)
                &&& asks_if_few(before, after)
            }
            &&& crowded(t, peer) && may_wait(t, node) ==> {
                &&& r == RoutingUpdate::Pending
                &&& queues_also(before.queued_events@, events)
                &&& exists|i: int| #[trigger]
                    is_next_to_leave(t, peer, i) && calls_up(events.last(), t.nodes[i].peer)
            }
            &&& crowded(t, peer) && !may_wait(t, node) ==> {
                &&& r == RoutingUpdate::Failed
                &&& events == before.queued_events@
            }
        }),
{
    let now = choose|now: Moment|
        is_present(before.clock, now) && #[trigger] address_added(
            before,
            after,
            peer,
            address,
            now,
            r,
        );
    let t = before.kbuckets@;
    t.lemma_place(key_of_peer(peer));
    match t.place_of(peer) {
        Place::Present(i) => {
            assert(key_of_peer(t.nodes[i].peer) == key_of_peer(peer));
        },
        Place::Pending(i) => {
            assert(key_of_peer(t.pending[i].node.peer) == key_of_peer(peer));
        },
        _ => {},
    }
    if let Ok(addr) = p2p_qualified(address, peer) {
        let node = NodeView {
            peer,
            addrs: seq![addr],
            status: status_of(before.connected_peers@, peer),
        };
        lemma_enters(t, node, now);
        lemma_crowded(t, peer);
        lemma_may_wait(t, node);
        let events = after.queued_events@;
        let n = before.queued_events@.len() as int;
        if events.len() == n + 1 {
            assert(events.subrange(0, n) =~= before.queued_events@);
        }
        if !crowded(t, peer) {
            lemma_news(events.last(), t, peer, true, seq![addr], None);
        } else if may_wait(t, node) {
            let b = t.bucket(node.key());
            let i = choose|i: int| #[trigger]
                t.stalest_at(b, i) && dials_peer(events.last(), t.nodes[i].peer);
            assert(is_next_to_leave(t, peer, i));
        }
    }
    now
}

/// Whether a list has gained an element at its end, if it did not hold it.
pub open spec fn gains<T>(before: Seq<T>, after: Seq<T>, x: T) -> bool {
    &&& before.contains(x) ==> after == before
    &&& !before.contains(x) ==> after.len() == before.len() + 1 && before.is_prefix_of(after)
        && after.last() == x
}

/// A list with an element has gained it.
pub proof fn lemma_gains<T>(list: Seq<T>, x: T)
    ensures
        gains(list, with_item(list, x), x),
{
    if !list.contains(x) {
        assert(list.push(x).subrange(0, list.len() as int) =~= list);
    }
}

/// Adding an address of a peer that the routing table holds, or that waits for a place there, adds
/// it to those of the peer, and leaves every other peer alone. The application is told of an
/// address of a peer that the table holds, if it is new.
pub proof fn law_added_address_is_kept<S>(
    before: Behaviour<S>,
    after: Behaviour<S>,
    peer: PeerId,
    address: Multiaddr,
    now: Moment,
    r: RoutingUpdate,
    i: int,
    j: int,
)
    requires
        before.wf(),
        address_added(before, after, peer, address, now, r),
        p2p_qualified(address, peer) is Ok,
    ensures
        ({
            let t = before.kbuckets@;
            let t2 = after.kbuckets@;
            let addr = p2p_qualified(address, peer)->Ok_0;
            &&& 0 <= i < t.nodes.len() && key_of_peer(t.nodes[i].peer) == key_of_peer(peer) ==> {
                let old_addrs = t.nodes[i].addrs;
                &&& r == RoutingUpdate::Success
                &&& t2.pending == t.pending
                &&& t2.nodes.len() == t.nodes.len()
                &&& 0 <= j < t.nodes.len() && j != i ==> t2.nodes[j] == t.nodes[j]
                &&& t2.nodes[i].peer == t.nodes[i].peer
                &&& t2.nodes[i].status == t.nodes[i].status
                &&& gains(old_addrs, t2.nodes[i].addrs, addr)
                &&& old_addrs.contains(addr) ==> after.queued_events == before.queued_events
                &&& !old_addrs.contains(addr) ==> {
                    &&& queues_also(before.queued_events@, after.queued_events@)
                    &&& tells_news(
                        after.queued_events@.last(),
                        t,
                        peer,
                        false,
                        t2.nodes[i].addrs,
                        None,
                    )
                }
            }
            &&& 0 <= i < t.pending.len() && key_of_peer(t.pending[i].node.peer) == key_of_peer(
                peer,
            ) ==> {
                &&& r == RoutingUpdate::Pending
                &&& t2.nodes == t.nodes
                &&& t2.pending.len() == t.pending.len()
                &&& 0 <= j < t.pending.len() && j != i ==> t2.pending[j] == t.pending[j]
                &&& t2.pending[i].node.peer == t.pending[i].node.peer
                &&& t2.pending[i].node.status == t.pending[i].node.status
                &&& t2.pending[i].replace == t.pending[i].replace
                &&& gains(t.pending[i].node.addrs, t2.pending[i].node.addrs, addr)
                &&& after.queued_events == before.queued_events
            }
        }),
{
    let t = before.kbuckets@;
    let addr = p2p_qualified(address, peer)->Ok_0;
    if 0 <= i < t.nodes.len() && key_of_peer(t.nodes[i].peer) == key_of_peer(peer) {
        t.lemma_present(i);
        lemma_gains(t.nodes[i].addrs, addr);
        let events = after.queued_events@;
        let n = before.queued_events@.len() as int;
        if !t.nodes[i].addrs.contains(addr) {
            assert(events.subrange(0, n) =~= before.queued_events@);
            lemma_news(events.last(), t, peer, false, with_item(t.nodes[i].addrs, addr), None);
        }
    }
    if 0 <= i < t.pending.len() && key_of_peer(t.pending[i].node.peer) == key_of_peer(peer) {
        t.lemma_waiting(i);
        lemma_gains(t.pending[i].node.addrs, addr);
    }
}

////////////////////////////////////////////////////////////////////////////////
// Who leaves

/// Removing a peer takes it out of the routing table, or off the wait for a place there, and
/// returns what was known of it. Every other peer stays, and so does all if the peer is not known.
pub proof fn law_removed_peer_is_gone<S>(
    before: Behaviour<S>,
    after: Behaviour<S>,
    peer: PeerId,
    r: Option<EntryView>,
    i: int,
)
    requires
        before.wf(),
        peer_removed(before, after, peer, r),
    ensures
        !knows(after.kbuckets@, peer),
        ({
            let t = before.kbuckets@;
            let t2 = after.kbuckets@;
            &&& 0 <= i < t.nodes.len() && key_of_peer(t.nodes[i].peer) == key_of_peer(peer) ==> {
                &&& r matches Some(e) && e@ == t.nodes[i]
                &&& t2.nodes == t.nodes.remove(i)
                &&& t2.pending == t.pending
            }
            &&& 0 <= i < t.pending.len() && key_of_peer(t.pending[i].node.peer) == key_of_peer(
                peer,
            ) ==> {
                &&& r matches Some(e) && e@ == t.pending[i].node
                &&& t2.nodes == t.nodes
                &&& t2.pending == t.pending.remove(i)
            }
            &&& !knows(t, peer) ==> r is None && after == before
        }),
        after == (Behaviour { kbuckets: after.kbuckets, ..before }),
{
    let t = before.kbuckets@;
    let t2 = after.kbuckets@;
    let key = key_of_peer(peer);
    t.lemma_place(key);
    if 0 <= i < t.nodes.len() && key_of_peer(t.nodes[i].peer) == key {
        t.lemma_present(i);
    }
    if 0 <= i < t.pending.len() && key_of_peer(t.pending[i].node.peer) == key {
        t.lemma_waiting(i);
    }
    match t.place_of(peer) {
        Place::Present(k) => {
            assert(key_of_peer(t.nodes[k].peer) == key);
            assert forall|j: int| 0 <= j < t2.nodes.len() implies key_of_peer(
                (#[trigger] t2.nodes[j]).peer,
            ) != key by {
                let x = if j < k {
                    j
                } else {
                    j + 1
                };
                assert(t2.nodes[j] == t.nodes[x]);
                assert(t.nodes[x].key() != t.nodes[k].key());
            }
            assert forall|j: int| 0 <= j < t2.pending.len() implies key_of_peer(
                (#[trigger] t2.pending[j]).node.peer,
            ) != key by {
                assert(t.nodes[k].key() != t.pending[j].node.key());
            }
        },
        Place::Pending(k) => {
            assert(key_of_peer(t.pending[k].node.peer) == key);
            assert forall|j: int| 0 <= j < t2.pending.len() implies key_of_peer(
                (#[trigger] t2.pending[j]).node.peer,
            ) != key by {
                let x = if j < k {
                    j
                } else {
                    j + 1
                };
                assert(t2.pending[j] == t.pending[x]);
                assert(t.bucket(t.pending[x].node.key()) != t.bucket(t.pending[k].node.key()));
            }
            assert forall|j: int| 0 <= j < t2.nodes.len() implies key_of_peer(
                (#[trigger] t2.nodes[j]).peer,
            ) != key by {
                assert(t.nodes[j].key() != t.pending[k].node.key());
            }
        },
        _ => {
            assert forall|j: int| 0 <= j < t.nodes.len() implies key_of_peer(
                (#[trigger] t.nodes[j]).peer,
            ) != key by {
                assert(!t.node_is(j, key));
            }
            assert forall|j: int| 0 <= j < t.pending.len() implies key_of_peer(
                (#[trigger] t.pending[j]).node.peer,
            ) != key by {
                assert(!t.pending_is(j, key));
            }
        },
    }
}

/// Whether a list has lost the first occurrence of an element, if it held it.
pub open spec fn loses<T>(before: Seq<T>, after: Seq<T>, x: T) -> bool {
    &&& !before.contains(x) ==> after == before
    &&& before.contains(x) ==> exists|k: int|
        0 <= k < before.len() && #[trigger] before[k] == x && after == before.remove(k) && (forall|
            j: int,
        |
            0 <= j < k ==> #[trigger] before[j] != x)
}

/// An element has a first occurrence at or before any other.
proof fn lemma_first_before<T>(list: Seq<T>, x: T, i: int) -> (k: int)
    requires
        0 <= i < list.len(),
        list[i] == x,
    ensures
        0 <= k <= i,
        list[k] == x,
        forall|j: int| 0 <= j < k ==> #[trigger] list[j] != x,
    decreases i,
{
    if exists|j: int| 0 <= j < i && #[trigger] list[j] == x {
        let j = choose|j: int| 0 <= j < i && #[trigger] list[j] == x;
        lemma_first_before(list, x, j)
    } else {
        i
    }
}

/// A list without an element has lost it.
pub proof fn lemma_loses<T>(list: Seq<T>, x: T)
    ensures
        loses(list, without_item(list, x), x),
{
    if list.contains(x) {
        let k = lemma_first_before(list, x, list.index_of(x));
        lemma_first_index(list, x, k);
        assert(list[k] == x && without_item(list, x) == list.remove(k));
    }
}

/// Whether an address is the only one of a list.
pub open spec fn is_only(list: Seq<Multiaddr>, a: Multiaddr) -> bool {
    list.len() == 1 && list[0] == a
}

/// Removing an address of a peer takes the peer out of the routing table if it has no other, and
/// returns what was known of it. Otherwise the peer only loses the address.
pub proof fn law_removed_address_is_lost<S>(
    before: Behaviour<S>,
    after: Behaviour<S>,
    peer: PeerId,
    address: Multiaddr,
    r: Option<EntryView>,
    i: int,
    j: int,
)
    requires
        before.wf(),
        address_removed(before, after, peer, address, r),
        p2p_qualified(address, peer) is Ok,
    ensures
        ({
            let t = before.kbuckets@;
            let t2 = after.kbuckets@;
            let addr = p2p_qualified(address, peer)->Ok_0;
            &&& 0 <= i < t.nodes.len() && key_of_peer(t.nodes[i].peer) == key_of_peer(peer) ==> {
                &&& t2.pending == t.pending
                &&& is_only(t.nodes[i].addrs, addr) ==> {
                    &&& r matches Some(e) && e@ == t.nodes[i]
                    &&& t2.nodes == t.nodes.remove(i)
                }
                &&& !is_only(t.nodes[i].addrs, addr) ==> {
                    &&& r is None
                    &&& t2.nodes.len() == t.nodes.len()
                    &&& 0 <= j < t.nodes.len() && j != i ==> t2.nodes[j] == t.nodes[j]
                    &&& t2.nodes[i].peer == t.nodes[i].peer
                    &&& t2.nodes[i].status == t.nodes[i].status
                    &&& loses(t.nodes[i].addrs, t2.nodes[i].addrs, addr)
                }
            }
            &&& 0 <= i < t.pending.len() && key_of_peer(t.pending[i].node.peer) == key_of_peer(
                peer,
            ) ==> {
                &&& t2.nodes == t.nodes
                &&& is_only(t.pending[i].node.addrs, addr) ==> {
                    &&& r matches Some(e) && e@ == t.pending[i].node
                    &&& t2.pending == t.pending.remove(i)
                }
                &&& !is_only(t.pending[i].node.addrs, addr) ==> {
                    &&& r is None
                    &&& t2.pending.len() == t.pending.len()
                    &&& 0 <= j < t.pending.len() && j != i ==> t2.pending[j] == t.pending[j]
                    &&& loses(t.pending[i].node.addrs, t2.pending[i].node.addrs, addr)
                }
            }
            &&& !knows(t, peer) ==> r is None && after == before
        }),
        after == (Behaviour { kbuckets: after.kbuckets, ..before }),
{
    let t = before.kbuckets@;
    let addr = p2p_qualified(address, peer)->Ok_0;
    let key = key_of_peer(peer);
    t.lemma_place(key);
    if 0 <= i < t.nodes.len() && key_of_peer(t.nodes[i].peer) == key {
        t.lemma_present(i);
        let list = t.nodes[i].addrs;
        lemma_loses(list, addr);
        if is_only(list, addr) {
            assert(list =~= seq![addr]);
        }
    }
    if 0 <= i < t.pending.len() && key_of_peer(t.pending[i].node.peer) == key {
        t.lemma_waiting(i);
        let list = t.pending[i].node.addrs;
        lemma_loses(list, addr);
        if is_only(list, addr) {
            assert(list =~= seq![addr]);
        }
    }
    match t.place_of(peer) {
        Place::Present(k) => {
            assert(key_of_peer(t.nodes[k].peer) == key);
        },
        Place::Pending(k) => {
            assert(key_of_peer(t.pending[k].node.peer) == key);
        },
        _ => {},
    }
}

/// An address that could not be reached is lost in the routing table, unless it is the only one of
/// its peer.
pub proof fn law_failed_address_is_lost<S>(
    before: Behaviour<S>,
    after: Behaviour<S>,
    peer: PeerId,
    addr: Multiaddr,
    i: int,
    j: int,
)
    requires
        before.wf(),
        address_failure(before, after, peer, addr),
    ensures
        ({
            let t = before.kbuckets@;
            let t2 = after.kbuckets@;
            &&& t2.nodes.len() == t.nodes.len()
            &&& t2.pending.len() == t.pending.len()
            &&& 0 <= i < t.nodes.len() ==> {
                let list = t.nodes[i].addrs;
                let same = key_of_peer(t.nodes[i].peer) == key_of_peer(peer);
                &&& t2.nodes[i].peer == t.nodes[i].peer
                &&& t2.nodes[i].status == t.nodes[i].status
                &&& !same || is_only(list, addr) ==> t2.nodes[i].addrs == list
                &&& same && !is_only(list, addr) ==> loses(list, t2.nodes[i].addrs, addr)
            }
            &&& 0 <= j < t.pending.len() ==> {
                let list = t.pending[j].node.addrs;
                let same = key_of_peer(t.pending[j].node.peer) == key_of_peer(peer);
                &&& t2.pending[j].node.peer == t.pending[j].node.peer
                &&& !same || is_only(list, addr) ==> t2.pending[j].node.addrs == list
                &&& same && !is_only(list, addr) ==> loses(list, t2.pending[j].node.addrs, addr)
            }
        }),
        after == (Behaviour { kbuckets: after.kbuckets, queries: after.queries, ..before }),
{
    let t = before.kbuckets@;
    let key = key_of_peer(peer);
    t.lemma_place(key);
    if 0 <= i < t.nodes.len() {
        let list = t.nodes[i].addrs;
        lemma_loses(list, addr);
        if key_of_peer(t.nodes[i].peer) == key {
            t.lemma_present(i);
            if is_only(list, addr) {
                assert(list =~= seq![addr]);
            }
        }
    }
    if 0 <= j < t.pending.len() {
        let list = t.pending[j].node.addrs;
        lemma_loses(list, addr);
        if key_of_peer(t.pending[j].node.peer) == key {
            t.lemma_waiting(j);
            if is_only(list, addr) {
                assert(list =~= seq![addr]);
            }
        }
    }
}

/// Whether the first occurrence of an element of a list has become another.
pub open spec fn swaps<T>(before: Seq<T>, after: Seq<T>, x: T, y: T) -> bool {
    &&& !before.contains(x) ==> after == before
    &&& before.contains(x) ==> exists|k: int|
        0 <= k < before.len() && #[trigger] before[k] == x && after == before.update(k, y) && (
        forall|j: int| 0 <= j < k ==> #[trigger] before[j] != x)
}

/// An address that changes is exchanged in the routing table where its peer has it.
pub proof fn law_changed_address_is_exchanged<S>(
    before: Behaviour<S>,
    after: Behaviour<S>,
    event: FromSwarm,
    peer: PeerId,
    old_addr: Multiaddr,
    new_addr: Multiaddr,
    i: int,
    j: int,
)
    requires
        before.wf(),
        news_handled(before, after, event),
        event matches FromSwarm::AddressChange { peer_id, old: o, new: n } && peer_id == peer
            && o.remote_address() == old_addr && n.remote_address() == new_addr,
    ensures
        ({
            let t = before.kbuckets@;
            let t2 = after.kbuckets@;
            &&& t2.nodes.len() == t.nodes.len()
            &&& t2.pending.len() == t.pending.len()
            &&& 0 <= i < t.nodes.len() ==> {
                let same = key_of_peer(t.nodes[i].peer) == key_of_peer(peer);
                &&& t2.nodes[i].peer == t.nodes[i].peer
                &&& t2.nodes[i].status == t.nodes[i].status
                &&& !same ==> t2.nodes[i].addrs == t.nodes[i].addrs
                &&& same ==> swaps(t.nodes[i].addrs, t2.nodes[i].addrs, old_addr, new_addr)
            }
            &&& 0 <= j < t.pending.len() ==> {
                let same = key_of_peer(t.pending[j].node.peer) == key_of_peer(peer);
                &&& t2.pending[j].node.peer == t.pending[j].node.peer
                &&& !same ==> t2.pending[j].node.addrs == t.pending[j].node.addrs
                &&& same ==> swaps(
                    t.pending[j].node.addrs,
                    t2.pending[j].node.addrs,
                    old_addr,
                    new_addr,
                )
            }
        }),
        after == (Behaviour { kbuckets: after.kbuckets, queries: after.queries, ..before }),
{
    let t = before.kbuckets@;
    let key = key_of_peer(peer);
    t.lemma_place(key);
    if 0 <= i < t.nodes.len() && key_of_peer(t.nodes[i].peer) == key {
        t.lemma_present(i);
        lemma_swaps(t.nodes[i].addrs, old_addr, new_addr);
    }
    if 0 <= j < t.pending.len() && key_of_peer(t.pending[j].node.peer) == key {
        t.lemma_waiting(j);
        lemma_swaps(t.pending[j].node.addrs, old_addr, new_addr);
    }
}

/// A list in which an address was replaced has it swapped.
proof fn lemma_swaps(list: Seq<Multiaddr>, x: Multiaddr, y: Multiaddr)
    ensures
        swaps(list, replaced(list, x, y), x, y),
{
    if list.contains(x) {
        let k = lemma_first_before(list, x, list.index_of(x));
        lemma_first_index(list, x, k);
        assert(list[k] == x && replaced(list, x, y) == list.update(k, y));
    }
}

////////////////////////////////////////////////////////////////////////////////
// What is shown

/// Whether a bucket shows a peer as the routing table knows it.
pub open spec fn shows_peer(bucket: KBucketRef, node: NodeView) -> bool {
    exists|i: int| 0 <= i < bucket.entries@.len() && (#[trigger] bucket.entries@[i])@ == node
}

/// Whether a distance lies in the range of a bucket.
pub open spec fn in_range_of(bucket: KBucketRef, d: nat) -> bool {
    bucket.range.0@ <= d <= bucket.range.1@
}

/// The buckets that are shown hold every peer of the routing table, in the bucket whose range its
/// distance to the local peer lies in, and no other peer. They go from the closest to the
/// farthest, and none is empty.
pub proof fn law_every_peer_is_shown(
    buckets: Seq<KBucketRef>,
    t: TableView,
    node: NodeView,
    i: int,
    j: int,
)
    requires
        t.wf(),
        shows_buckets(buckets, t),
    ensures
        t.nodes.contains(node) ==> exists|k: int|
            0 <= k < buckets.len() && #[trigger] shows_peer(buckets[k], node),
        0 <= i < buckets.len() ==> {
            &&& buckets[i].entries@.len() > 0
            &&& shows_peer(buckets[i], node) ==> t.nodes.contains(node) && in_range_of(
                buckets[i],
                key_of_peer(t.local).spec_distance(key_of_peer(node.peer))@,
            )
        },
        0 <= i < j < buckets.len() ==> buckets[i].range.1@ < buckets[j].range.0@,
{
    let local = t.local_key();
    if t.nodes.contains(node) {
        let b = t.bucket(node.key());
        let x = t.nodes.index_of(node);
        law_distance_is_a_metric(local, node.key(), node.key());
        law_bucket_index_is_highest_bit(local.spec_distance(node.key()));
        lemma_filtered(t.nodes, in_bucket(local, b), node);
        assert(t.bucket_nodes(b).contains(node));
        let k = choose|k: int| 0 <= k < buckets.len() && (#[trigger] buckets[k]).index == b;
        let shown = entry_views(buckets[k].entries@);
        let y = shown.index_of(node);
        assert(buckets[k].entries@[y]@ == node);
        assert(shows_peer(buckets[k], node));
    }
    if 0 <= i < buckets.len() {
        let b = buckets[i].index as nat;
        let shown = entry_views(buckets[i].entries@);
        if shows_peer(buckets[i], node) {
            let y = choose|y: int|
                0 <= y < buckets[i].entries@.len() && (#[trigger] buckets[i].entries@[y])@ == node;
            assert(shown[y] == node);
            lemma_filtered(t.nodes, in_bucket(local, b), node);
            let x = t.nodes.index_of(node);
            assert(t.nodes[x].key() != local);
            law_distance_is_a_metric(local, node.key(), node.key());
            law_bucket_index_is_highest_bit(local.spec_distance(node.key()));
        }
    }
    if 0 <= i < j < buckets.len() {
        let a = buckets[i].index as nat;
        let b = buckets[j].index as nat;
        lemma_pow2_monotonic(a + 1, b);
        lemma_pow2_unfold(a + 1);
    }
}

/// The bucket that is shown for a key is the one whose range the distance of the key to the local
/// one lies in: it holds exactly the peers of the routing table at distances in that range. None
/// is shown for the local key itself.
pub proof fn law_bucket_of_key_is_shown(
    r: Option<KBucketRef>,
    t: TableView,
    key: KeyBytes,
    node: NodeView,
)
    requires
        t.wf(),
        shows_bucket_of(r, t, key),
    ensures
        r is None <==> key == key_of_peer(t.local),
        r matches Some(bucket) ==> {
            &&& in_range_of(bucket, key_of_peer(t.local).spec_distance(key)@)
            &&& bucket.range.1@ == 2 * bucket.range.0@ - 1
            &&& shows_peer(bucket, node) <==> t.nodes.contains(node) && in_range_of(
                bucket,
                key_of_peer(t.local).spec_distance(key_of_peer(node.peer))@,
            )
        },
{
    if let Some(bucket) = r {
        let local = t.local_key();
        let b = t.bucket(key);
        law_distance_is_a_metric(local, key, key);
        law_bucket_index_is_highest_bit(local.spec_distance(key));
        lemma_filtered(t.nodes, in_bucket(local, b), node);
        let shown = entry_views(bucket.entries@);
        if shows_peer(bucket, node) {
            let y = choose|y: int|
                0 <= y < bucket.entries@.len() && (#[trigger] bucket.entries@[y])@ == node;
            assert(shown[y] == node);
            assert(t.bucket_nodes(b).contains(node));
        }
        if t.nodes.contains(node) {
            let x = t.nodes.index_of(node);
            assert(t.nodes[x].key() != local);
            let d = local.spec_distance(node.key());
            law_distance_is_a_metric(local, node.key(), node.key());
            law_bucket_range_holds_its_distances(d, bucket.range, b);
            lemma_distance_order(bucket.range.0, d);
            lemma_distance_order(d, bucket.range.1);
            if in_range_of(bucket, d@) {
                assert(t.bucket_nodes(b).contains(node));
                let y = shown.index_of(node);
                assert(bucket.entries@[y]@ == node);
            }
        }
    }
}

/// The peers that are known locally are listed for a key from the closest to the farthest: every
/// peer of the routing table, as often as there, and no other.
pub proof fn law_known_peers_are_listed(t: TableView, target: KeyBytes, p: PeerId, i: int, j: int)
    requires
        t.wf(),
    ensures
        t.closest_peers(target).contains(p) <==> holds(t, p),
        t.closest_peers(target).len() == t.nodes.len(),
        0 <= i <= j < t.closest_peers(target).len() ==> far(t.closest_peers(target)[i], target)
            <= far(t.closest_peers(target)[j], target),
{
    let all = peers_of(t.nodes);
    let order = t.closest_peers(target);
    law_by_distance_sorts(all, target);
    if all.contains(p) {
        let k = all.index_of(p);
        assert(t.nodes[k].peer == p);
    }
    if holds(t, p) {
        let k = choose|k: int| 0 <= k < t.nodes.len() && (#[trigger] t.nodes[k]).peer == p;
        assert(all[k] == p);
    }
    assert(order.contains(p) <==> all.contains(p));
    if 0 <= i <= j < order.len() {
        lemma_distance_order(peer_distance(order[i], target), peer_distance(order[j], target));
    }
}

} // verus!
