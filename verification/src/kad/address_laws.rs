//! Laws on the addresses of peers that fail or change, in the routing table and in queries.

use libp2p_core::Multiaddr;
use libp2p_identity::PeerId;
use vstd::prelude::*;

use crate::assoc::entries_map;
use crate::assoc::has_key;
use crate::assoc::lemma_entries_insert;
use crate::assoc::lemma_filtered;
use crate::assoc::lemma_insert_get;
use crate::kad::addresses::removed;
use crate::kad::behaviour::Behaviour;
use crate::kad::connections::addresses_failure;
use crate::kad::connections::news_handled;
use crate::kad::connections::unreachable_addresses;
use crate::kad::kbucket::NodeView;
use crate::kad::kbucket::Place;
use crate::kad::key::key_of_peer;
use crate::kad::pool::address_dropped;
use crate::kad::pool::address_swapped;
use crate::kad::pool::each_query;
use crate::kad::pool::other_than;
use crate::kad::pool::peer_failed;
use crate::kad::pool::readdressed;
use crate::kad::pool::swapped;
use crate::kad::query::addr_views;
use crate::kad::query::addrs_of;
use crate::kad::query::lemma_addr_views_key;
use crate::kad::query::Query;
use crate::kad::query::QueryPeers;
use crate::kad::routing::address_failure;
use crate::kad::table_laws::is_only;
use crate::kad::table_laws::lemma_loses;
use crate::kad::table_laws::loses;
use crate::swarm::DialError;
use crate::swarm::FromSwarm;

verus! {

/// The addresses that a query has learned of a peer.
pub open spec fn learned_of(q: Query, p: PeerId) -> Seq<Multiaddr> {
    if q.peers.addresses@.contains_key(p) {
        q.peers.addresses@[p]@
    } else {
        Seq::empty()
    }
}

/// What a query has learned of a peer is what its list says.
proof fn lemma_learned_of(q: Query, p: PeerId)
    requires
        q.wf(),
    ensures
        learned_of(q, p) == addrs_of(addr_views(q.peers.addresses.entries@), p),
{
    let entries = q.peers.addresses.entries@;
    lemma_addr_views_key(entries, p);
    assert(entries_map(entries).contains_key(p) == has_key(entries, p));
}

/// Other addresses of a peer leave those of others alone.
proof fn lemma_readdressed(q: Query, q2: Query, peer: PeerId, addrs: Seq<Multiaddr>, p: PeerId)
    requires
        q.wf(),
        readdressed(q, q2, peer, addrs),
    ensures
        q2.wf(),
        p != peer ==> learned_of(q2, p) == learned_of(q, p),
        has_key(addr_views(q.peers.addresses.entries@), peer) ==> learned_of(q2, peer) == addrs,
        !has_key(addr_views(q.peers.addresses.entries@), peer) ==> learned_of(q2, peer).len() == 0
            && learned_of(q, peer).len() == 0,
        q2 == (Query { peers: QueryPeers { addresses: q2.peers.addresses, ..q.peers }, ..q }),
{
    let known = q.peers.addresses.entries@;
    let views = addr_views(known);
    let views2 = addr_views(q2.peers.addresses.entries@);
    assert forall|i: int, j: int| 0 <= i < j < views.len() implies (#[trigger] views[i]).0 != (
    #[trigger] views[j]).0 by {
        assert(known[i].0 == views[i].0 && known[j].0 == views[j].0);
    }
    lemma_entries_insert(views, peer, addrs);
    lemma_insert_get(views, peer, addrs, p);
    lemma_insert_get(views, peer, addrs, peer);
    let known2 = q2.peers.addresses.entries@;
    assert forall|i: int, j: int| 0 <= i < j < known2.len() implies (#[trigger] known2[i]).0 != (
    #[trigger] known2[j]).0 by {
        assert(known2[i].0 == views2[i].0 && known2[j].0 == views2[j].0);
    }
    lemma_learned_of(q, p);
    lemma_learned_of(q, peer);
    lemma_learned_of(q2, p);
    lemma_learned_of(q2, peer);
}

/// Whether nothing but an address was lost in a query: the peer is not tried there any more.
pub open spec fn drops(q: Query, q2: Query, peer: PeerId, addr: Multiaddr, p: PeerId, a: Multiaddr)
    -> bool {
    &&& learned_of(q2, p).contains(a) <==> learned_of(q, p).contains(a) && !(p == peer && a == addr)
    &&& q2 == (Query { peers: QueryPeers { addresses: q2.peers.addresses, ..q.peers }, ..q })
}

/// An address that could not be reached is not tried any more by any query, and nothing else
/// changes in the queries.
pub proof fn law_failed_address_is_dropped<S>(
    before: Behaviour<S>,
    after: Behaviour<S>,
    peer: PeerId,
    addr: Multiaddr,
    k: int,
    p: PeerId,
    a: Multiaddr,
)
    requires
        before.queries.wf(),
        address_failure(before, after, peer, addr),
        0 <= k < before.queries.queries.entries@.len(),
    ensures
        after.queries.queries.entries@.len() == before.queries.queries.entries@.len(),
        after.queries.queries.entries@[k].0 == before.queries.queries.entries@[k].0,
        drops(
            before.queries.queries.entries@[k].1,
            after.queries.queries.entries@[k].1,
            peer,
            addr,
            p,
            a,
        ),
        after.queries.queries.entries@[k].1.wf(),
{
    let q = before.queries.queries.entries@[k].1;
    let q2 = after.queries.queries.entries@[k].1;
    assert(q.wf());
    assert(address_dropped(peer, addr)(q, q2));
    let old_addrs = addrs_of(addr_views(q.peers.addresses.entries@), peer);
    lemma_readdressed(q, q2, peer, old_addrs.filter(other_than(addr)), p);
    lemma_learned_of(q, peer);
    lemma_filtered(old_addrs, other_than(addr), a);
}

/// An address that changes is exchanged wherever a query has learned it of the peer.
pub proof fn law_changed_address_is_tried<S>(
    before: Behaviour<S>,
    after: Behaviour<S>,
    event: FromSwarm,
    peer: PeerId,
    old_addr: Multiaddr,
    new_addr: Multiaddr,
    k: int,
    p: PeerId,
    i: int,
)
    requires
        before.wf(),
        news_handled(before, after, event),
        event matches FromSwarm::AddressChange { peer_id, old: o, new: n } && peer_id == peer
            && o.remote_address() == old_addr && n.remote_address() == new_addr,
        0 <= k < before.queries.queries.entries@.len(),
    ensures
        ({
            let q = before.queries.queries.entries@[k].1;
            let q2 = after.queries.queries.entries@[k].1;
            let list = learned_of(q, p);
            let list2 = learned_of(q2, p);
            &&& list2.len() == list.len()
            &&& 0 <= i < list.len() ==> list2[i] == (if p == peer && list[i] == old_addr {
                new_addr
            } else {
                list[i]
            })
            &&& q2 == (Query {
                peers: QueryPeers { addresses: q2.peers.addresses, ..q.peers },
                ..q
            })
        }),
        after.queries.queries.entries@[k].0 == before.queries.queries.entries@[k].0,
{
    let q = before.queries.queries.entries@[k].1;
    let q2 = after.queries.queries.entries@[k].1;
    assert(before.queries.wf());
    assert(q.wf());
    assert(address_swapped(peer, old_addr, new_addr)(q, q2));
    let old_addrs = addrs_of(addr_views(q.peers.addresses.entries@), peer);
    lemma_readdressed(q, q2, peer, swapped(old_addrs, old_addr, new_addr), p);
    lemma_learned_of(q, peer);
}

////////////////////////////////////////////////////////////////////////////////
// Several addresses

/// Whether the addresses of a peer in the routing table are what is left of others: none is new,
/// none is twice, and there is one.
pub open spec fn is_left_of(before: Seq<Multiaddr>, after: Seq<Multiaddr>) -> bool {
    &&& after.len() > 0
    &&& after.no_duplicates()
    &&& forall|a: Multiaddr| #[trigger] after.contains(a) ==> before.contains(a)
}

/// What is left when an address is lost.
proof fn lemma_left(before: Seq<Multiaddr>, after: Seq<Multiaddr>, addr: Multiaddr, a: Multiaddr)
    requires
        before.no_duplicates(),
        before.len() > 0,
        is_only(before, addr) ==> after == before,
        !is_only(before, addr) ==> loses(before, after, addr),
    ensures
        is_left_of(before, after),
        !after.contains(addr) || after.len() == 1,
        before.len() == 1 ==> after == before,
        before.contains(a) && a != addr ==> after.contains(a),
{
    if !is_only(before, addr) && before.contains(addr) {
        let k = choose|k: int|
            0 <= k < before.len() && #[trigger] before[k] == addr && after == before.remove(k) && (
            forall|j: int| 0 <= j < k ==> #[trigger] before[j] != addr);
        assert(before.len() > 1);
        assert forall|x: Multiaddr| #[trigger] after.contains(x) implies before.contains(x) && x
            != addr by {
            let i = after.index_of(x);
            let j = if i < k {
                i
            } else {
                i + 1
            };
            assert(before[j] == x);
        }
        if before.contains(a) && a != addr {
            let j = before.index_of(a);
            let i = if j < k {
                j
            } else {
                j - 1
            };
            assert(after[i] == a);
        }
    }
}

/// Several addresses that fail one after the other.
proof fn lemma_all_lost<S>(
    before: Behaviour<S>,
    after: Behaviour<S>,
    peer: PeerId,
    addrs: Seq<Multiaddr>,
    i: int,
    k: int,
    a: Multiaddr,
)
    requires
        before.kbuckets@.wf(),
        before.queries.wf(),
        addresses_failure(before, after, peer, addrs),
    ensures
        after.kbuckets@.wf(),
        after.queries.wf(),
        after == (Behaviour { kbuckets: after.kbuckets, queries: after.queries, ..before }),
        after.kbuckets@.nodes.len() == before.kbuckets@.nodes.len(),
        after.queries.queries.entries@.len() == before.queries.queries.entries@.len(),
        0 <= i < before.kbuckets@.nodes.len() ==> {
            let node = before.kbuckets@.nodes[i];
            let node2 = after.kbuckets@.nodes[i];
            &&& node2.peer == node.peer
            &&& node2.status == node.status
            &&& key_of_peer(node.peer) != key_of_peer(peer) ==> node2 == node
            &&& key_of_peer(node.peer) == key_of_peer(peer) && node.addrs.no_duplicates() ==> {
                &&& is_left_of(node.addrs, node2.addrs)
                &&& addrs.contains(a) ==> !node2.addrs.contains(a) || node2.addrs.len() == 1
                &&& !addrs.contains(a) && node.addrs.contains(a) ==> node2.addrs.contains(a)
            }
        },
        0 <= k < before.queries.queries.entries@.len() ==> {
            let q = before.queries.queries.entries@[k].1;
            let q2 = after.queries.queries.entries@[k].1;
            &&& after.queries.queries.entries@[k].0 == before.queries.queries.entries@[k].0
            &&& learned_of(q2, peer).contains(a) <==> learned_of(q, peer).contains(a)
                && !addrs.contains(a)
            &&& q2 == (Query {
                peers: QueryPeers { addresses: q2.peers.addresses, ..q.peers },
                ..q
            })
        },
    decreases addrs.len(),
{
    if addrs.len() > 0 {
        let front = addrs.drop_last();
        let addr = addrs.last();
        let mid = choose|mid: Behaviour<S>|
            addresses_failure(before, mid, peer, front) && #[trigger] address_failure(
                mid,
                after,
                peer,
                addr,
            );
        lemma_all_lost(before, mid, peer, front, i, k, a);
        lemma_one_lost(mid, after, peer, addr);
        if addrs.contains(a) && a != addr {
            let x = addrs.index_of(a);
            assert(front[x] == a);
        }
        if front.contains(a) {
            let x = front.index_of(a);
            assert(addrs[x] == a);
        }
        assert(addrs[addrs.len() - 1] == addr);
        let t = mid.kbuckets@;
        let t2 = after.kbuckets@;
        if 0 <= i < t.nodes.len() {
            let key = key_of_peer(peer);
            t.lemma_place(key);
            let node = before.kbuckets@.nodes[i];
            let list = t.nodes[i].addrs;
            if key_of_peer(t.nodes[i].peer) == key {
                t.lemma_present(i);
                lemma_loses(list, addr);
                if is_only(list, addr) {
                    assert(list =~= seq![addr]);
                }
                if node.addrs.no_duplicates() {
                    lemma_left(list, t2.nodes[i].addrs, addr, a);
                }
            }
        }
        if 0 <= k < mid.queries.queries.entries@.len() {
            law_failed_address_is_dropped(mid, after, peer, addr, k, peer, a);
        }
    }
}

/// An address that fails leaves the routing table and the queries in order.
proof fn lemma_one_lost<S>(before: Behaviour<S>, after: Behaviour<S>, peer: PeerId, addr: Multiaddr)
    requires
        before.kbuckets@.wf(),
        before.queries.wf(),
        address_failure(before, after, peer, addr),
    ensures
        after.kbuckets@.wf(),
        after.queries.wf(),
{
    let t = before.kbuckets@;
    t.lemma_place(key_of_peer(peer));
    match t.place_of(peer) {
        Place::Present(i) => {
            let list = t.nodes[i].addrs;
            lemma_loses(list, addr);
            if list.len() == 1 && list.contains(addr) {
                assert(list =~= seq![addr]);
            }
            t.lemma_node_addrs_wf(i, removed(list, addr));
        },
        Place::Pending(i) => {
            let list = t.pending[i].node.addrs;
            lemma_loses(list, addr);
            if list.len() == 1 && list.contains(addr) {
                assert(list =~= seq![addr]);
            }
            t.lemma_pending_update_wf(
                i,
                NodeView { addrs: removed(list, addr), ..t.pending[i].node },
            );
        },
        _ => {},
    }
    let entries = before.queries.queries.entries@;
    let entries2 = after.queries.queries.entries@;
    assert forall|k: int| 0 <= k < entries2.len() implies (#[trigger] entries2[k]).1.wf()
        && entries2[k].1.id == entries2[k].0 && entries2[k].0 == entries[k].0 by {
        law_failed_address_is_dropped(before, after, peer, addr, k, peer, addr);
        assert(entries[k].1.id == entries[k].0);
    }
    assert forall|i: int, j: int| 0 <= i < j < entries2.len() implies (#[trigger] entries2[i]).0
        != (#[trigger] entries2[j]).0 by {
        assert(entries[i].0 != entries[j].0);
    }
}

/// Every address at which a peer could not be reached, when a connection was made or a dial
/// failed, is lost in the routing table, unless no other is left, and is not tried any more by any
/// query. All other addresses stay.
pub proof fn law_unreachable_addresses_are_lost<S>(
    before: Behaviour<S>,
    after: Behaviour<S>,
    event: FromSwarm,
    peer: PeerId,
    addrs: Seq<Multiaddr>,
    i: int,
    k: int,
    a: Multiaddr,
)
    requires
        before.wf(),
        news_handled(before, after, event),
        match event {
            FromSwarm::ConnectionEstablished { peer_id, failed_addresses, .. } => peer_id == peer
                && failed_addresses@ == addrs,
            FromSwarm::DialFailure { peer_id, error: DialError::Transport(addresses), .. } => peer_id
                == Some(peer) && addresses@ == addrs,
            _ => false,
        },
    ensures
        0 <= i < before.kbuckets@.nodes.len() ==> {
            let node = before.kbuckets@.nodes[i];
            let node2 = after.kbuckets@.nodes[i];
            &&& node2.peer == node.peer
            &&& node2.status == node.status
            &&& key_of_peer(node.peer) != key_of_peer(peer) ==> node2 == node
            &&& key_of_peer(node.peer) == key_of_peer(peer) && node.addrs.no_duplicates() ==> {
                &&& is_left_of(node.addrs, node2.addrs)
                &&& addrs.contains(a) ==> !node2.addrs.contains(a) || node2.addrs.len() == 1
                &&& !addrs.contains(a) && node.addrs.contains(a) ==> node2.addrs.contains(a)
            }
        },
        0 <= k < before.queries.queries.entries@.len() ==> {
            let q = before.queries.queries.entries@[k].1;
            let q2 = after.queries.queries.entries@[k].1;
            learned_of(q2, peer).contains(a) <==> learned_of(q, peer).contains(a)
                && !addrs.contains(a)
        },
        after.queued_events == before.queued_events,
        after.store == before.store,
{
    match event {
        FromSwarm::ConnectionEstablished { failed_addresses, other_established, .. } => {
            let mid = choose|mid: Behaviour<S>| #[trigger]
                addresses_failure(before, mid, peer, failed_addresses@) && if other_established
                    == 0 {
                    &&& after == (Behaviour { connected_peers: after.connected_peers, ..mid })
                    &&& after.connected_peers@ == mid.connected_peers@.insert(peer)
                } else {
                    after == mid
                };
            lemma_all_lost(before, mid, peer, addrs, i, k, a);
        },
        FromSwarm::DialFailure { error, .. } => {
            let mid = choose|mid: Behaviour<S>| #[trigger]
                addresses_failure(before, mid, peer, unreachable_addresses(error)) && {
                    &&& after == (Behaviour { queries: after.queries, ..mid })
                    &&& each_query(mid.queries, after.queries, peer_failed(peer))
                };
            lemma_all_lost(before, mid, peer, addrs, i, k, a);
            if 0 <= k < before.queries.queries.entries@.len() {
                let q1 = mid.queries.queries.entries@[k].1;
                let q2 = after.queries.queries.entries@[k].1;
                assert(peer_failed(peer)(q1, q2));
            }
        },
        _ => {},
    }
}

/// A further connection to a peer changes nothing about who is connected.
pub proof fn law_further_connection_changes_nothing<S>(
    before: Behaviour<S>,
    after: Behaviour<S>,
    event: FromSwarm,
)
    requires
        before.wf(),
        news_handled(before, after, event),
        event matches FromSwarm::ConnectionEstablished { other_established, .. }
            && other_established > 0,
    ensures
        after.connected_peers == before.connected_peers,
        after.connections == before.connections,
        after.queued_events == before.queued_events,
{
    if let FromSwarm::ConnectionEstablished { peer_id, failed_addresses, .. } = event {
        lemma_all_lost(
            before,
            after,
            peer_id,
            failed_addresses@,
            0,
            0,
            arbitrary(),
        );
    }
}

} // verus!
