//! Operations on all running queries at once.

use libp2p_core::Multiaddr;
use libp2p_identity::PeerId;
use vstd::prelude::*;

use crate::assoc::entries_insert;
use crate::assoc::has_key;
use crate::assoc::Ident;
use crate::kad::kbucket::lemma_filter_push;
use crate::kad::protocol::HandlerIn;
use crate::kad::protocol::QueryId;
use crate::kad::query::addr_views;
use crate::kad::query::addrs_of;
use crate::kad::query::failed;
use crate::kad::query::lemma_addr_views_insert;
use crate::kad::query::lemma_addr_views_key;
use crate::kad::query::Query;
use crate::kad::query::QueryPeers;
use crate::kad::query::QueryPool;

verus! {

/// Whether `after` is `before` once each of its queries went through a change.
pub open spec fn each_query(
    before: QueryPool,
    after: QueryPool,
    change: spec_fn(Query, Query) -> bool,
) -> bool {
    &&& after == (QueryPool { queries: after.queries, ..before })
    &&& after.queries.entries@.len() == before.queries.entries@.len()
    &&& forall|i: int|
        0 <= i < before.queries.entries@.len() ==> (#[trigger] after.queries.entries@[i]).0
            == before.queries.entries@[i].0 && change(
            before.queries.entries@[i].1,
            after.queries.entries@[i].1,
        )
}

/// Tells addresses from the given one.
pub open spec fn other_than(addr: Multiaddr) -> spec_fn(Multiaddr) -> bool {
    |a: Multiaddr| a != addr
}

/// A list in which every occurrence of an address is replaced.
pub open spec fn swapped(list: Seq<Multiaddr>, old_addr: Multiaddr, new_addr: Multiaddr) -> Seq<
    Multiaddr,
> {
    Seq::new(
        list.len(),
        |i: int|
            if list[i] == old_addr {
                new_addr
            } else {
                list[i]
            },
    )
}

/// Whether `after` is `before` with other addresses of a peer, if any are known.
pub open spec fn readdressed(
    before: Query,
    after: Query,
    peer: PeerId,
    addrs: Seq<Multiaddr>,
) -> bool {
    let known = addr_views(before.peers.addresses.entries@);
    &&& after == (Query {
        peers: QueryPeers { addresses: after.peers.addresses, ..before.peers },
        ..before
    })
    &&& addr_views(after.peers.addresses.entries@) == (if has_key(known, peer) {
        entries_insert(known, peer, addrs)
    } else {
        known
    })
}

/// What the failure of an address changes in a query: it is no longer tried.
pub open spec fn address_dropped(peer: PeerId, addr: Multiaddr) -> spec_fn(Query, Query) -> bool {
    |before: Query, after: Query|
        readdressed(
            before,
            after,
            peer,
            addrs_of(addr_views(before.peers.addresses.entries@), peer).filter(other_than(addr)),
        )
}

/// What the change of an address changes in a query: the new one is tried.
pub open spec fn address_swapped(
    peer: PeerId,
    old_addr: Multiaddr,
    new_addr: Multiaddr,
) -> spec_fn(Query, Query) -> bool {
    |before: Query, after: Query|
        readdressed(
            before,
            after,
            peer,
            swapped(
                addrs_of(addr_views(before.peers.addresses.entries@), peer),
                old_addr,
                new_addr,
            ),
        )
}

/// What the failure of a peer changes in a query.
pub open spec fn peer_failed(peer: PeerId) -> spec_fn(Query, Query) -> bool {
    |before: Query, after: Query| failed(before, after, peer)
}

/// Whether the request at `i` is the first that waits for a connection to a peer.
pub open spec fn first_rpc(rpcs: Seq<(PeerId, HandlerIn)>, peer: PeerId, i: int) -> bool {
    &&& 0 <= i < rpcs.len()
    &&& rpcs[i].0 == peer
    &&& forall|j: int| 0 <= j < i ==> (#[trigger] rpcs[j]).0 != peer
}

/// What a connection to a peer changes in a query: a request no longer waits for it.
pub open spec fn rpc_taken(peer: PeerId) -> spec_fn(Query, Query) -> bool {
    |before: Query, after: Query|
        {
            &&& after == (Query { pending_rpcs: after.pending_rpcs, ..before })
            &&& after.pending_rpcs@ == waiting_left(before.pending_rpcs@, peer)
        }
}

/// The requests that wait for a connection, without the first one for a peer.
pub open spec fn waiting_left(rpcs: Seq<(PeerId, HandlerIn)>, peer: PeerId) -> Seq<
    (PeerId, HandlerIn),
> {
    if exists|i: int| first_rpc(rpcs, peer, i) {
        rpcs.remove(choose|i: int| first_rpc(rpcs, peer, i))
    } else {
        rpcs
    }
}

/// The first request of each query that waits for a connection to a peer.
pub open spec fn taken_rpcs(
    entries: Seq<(QueryId, Query)>,
    peer: PeerId,
) -> Seq<HandlerIn>
    decreases entries.len(),
{
    if entries.len() == 0 {
        Seq::empty()
    } else {
        let before = taken_rpcs(entries.drop_last(), peer);
        let rpcs = entries.last().1.pending_rpcs@;
        if exists|i: int| first_rpc(rpcs, peer, i) {
            before.push(rpcs[choose|i: int| first_rpc(rpcs, peer, i)].1)
        } else {
            before
        }
    }
}

impl Query {
    /// Replaces the addresses of a peer, where any are known.
    fn set_addresses(&mut self, peer: &PeerId, addrs: Vec<Multiaddr>)
        requires
            old(self).wf(),
            has_key(old(self).peers.addresses.entries@, *peer),
        ensures
            final(self).wf(),
            readdressed(*old(self), *final(self), *peer, addrs@),
    {
        proof {
            lemma_addr_views_insert(self.peers.addresses.entries@, *peer, addrs);
            lemma_addr_views_key(self.peers.addresses.entries@, *peer);
        }
        self.peers.addresses.insert(*peer, addrs);
    }

    /// No longer tries an address of a peer.
    fn drop_address(&mut self, peer: &PeerId, addr: &Multiaddr)
        requires
            old(self).wf(),
        ensures
            final(self).wf(),
            address_dropped(*peer, *addr)(*old(self), *final(self)),
    {
        proof {
            lemma_addr_views_key(self.peers.addresses.entries@, *peer);
        }
        if let Some(list) = self.peers.addresses.get(peer) {
            let mut kept: Vec<Multiaddr> = Vec::new();
            let n: usize = list.len();
            let mut i: usize = 0;
            let ghost f = other_than(*addr);
            proof {
                reveal(Seq::filter);
            }
            while i < n
                invariant
                    n == list@.len(),
                    i <= n,
                    f == other_than(*addr),
                    kept@ == list@.take(i as int).filter(f),
                decreases n - i,
            {
                proof {
                    assert(list@.take(i + 1) =~= list@.take(i as int).push(list@[i as int]));
                    lemma_filter_push(list@.take(i as int), list@[i as int], f);
                }
                if !list[i].same(addr) {
                    kept.push(list[i].clone());
                }
                i = i + 1;
            }
            assert(list@.take(n as int) =~= list@);
            self.set_addresses(peer, kept);
        }
    }

    /// Tries a new address of a peer in place of an old one.
    fn swap_address(&mut self, peer: &PeerId, old_addr: &Multiaddr, new_addr: &Multiaddr)
        requires
            old(self).wf(),
        ensures
            final(self).wf(),
            address_swapped(*peer, *old_addr, *new_addr)(*old(self), *final(self)),
    {
        proof {
            lemma_addr_views_key(self.peers.addresses.entries@, *peer);
        }
        if let Some(list) = self.peers.addresses.get(peer) {
            let mut changed: Vec<Multiaddr> = Vec::new();
            let n: usize = list.len();
            let mut i: usize = 0;
            while i < n
                invariant
                    n == list@.len(),
                    i <= n,
                    changed@.len() == i,
                    forall|j: int|
                        0 <= j < i ==> #[trigger] changed@[j] == (if list@[j] == *old_addr {
                            *new_addr
                        } else {
                            list@[j]
                        }),
                decreases n - i,
            {
                if list[i].same(old_addr) {
                    changed.push(new_addr.clone());
                } else {
                    changed.push(list[i].clone());
                }
                i = i + 1;
            }
            assert(changed@ =~= swapped(list@, *old_addr, *new_addr));
            self.set_addresses(peer, changed);
        }
    }

    /// Takes the first request that waits for a connection to a peer.
    fn take_rpc(&mut self, peer: &PeerId) -> (r: Option<HandlerIn>)
        requires
            old(self).wf(),
        ensures
            final(self).wf(),
            rpc_taken(*peer)(*old(self), *final(self)),
            match r {
                Some(event) => (exists|i: int| first_rpc(old(self).pending_rpcs@, *peer, i))
                    && event == old(self).pending_rpcs@[choose|i: int|
                    first_rpc(old(self).pending_rpcs@, *peer, i)].1,
                None => !(exists|i: int| first_rpc(old(self).pending_rpcs@, *peer, i)),
            },
    {
        let ghost rpcs = self.pending_rpcs@;
        let n: usize = self.pending_rpcs.len();
        let mut i: usize = 0;
        while i < n
            invariant
                n == self.pending_rpcs@.len(),
                i <= n,
                *self == *old(self),
                rpcs == self.pending_rpcs@,
                self.wf(),
                forall|j: int| 0 <= j < i ==> (#[trigger] rpcs[j]).0 != *peer,
            decreases n - i,
        {
            if self.pending_rpcs[i].0.same(peer) {
                proof {
                    assert(first_rpc(rpcs, *peer, i as int));
                    let k = choose|k: int| first_rpc(rpcs, *peer, k);
                    if k < i {
                        assert(rpcs[k].0 != *peer);
                    } else if i < k {
                        assert(rpcs[i as int].0 != *peer);
                    }
                }
                let (_, event) = self.pending_rpcs.remove(i);
                return Some(event);
            }
            i = i + 1;
        }
        assert forall|k: int| !first_rpc(rpcs, *peer, k) by {
            if first_rpc(rpcs, *peer, k) {
                assert(rpcs[k].0 != *peer);
            }
        }
        None
    }
}

impl QueryPool {
    /// No longer tries an address of a peer.
    pub fn drop_address(&mut self, peer: &PeerId, addr: &Multiaddr)
        requires
            old(self).wf(),
        ensures
            final(self).wf(),
            each_query(*old(self), *final(self), address_dropped(*peer, *addr)),
    {
        let ghost before = *self;
        let n: usize = self.queries.entries.len();
        let mut i: usize = 0;
        while i < n
            invariant
                n == self.queries.entries@.len(),
                n == before.queries.entries@.len(),
                i <= n,
                before.wf(),
                partly_changed(before, *self, i as int, address_dropped(*peer, *addr)),
            decreases n - i,
        {
            proof {
                assert(self.queries.entries@[i as int] == before.queries.entries@[i as int]);
                assert(before.queries.entries@[i as int].1.wf());
            }
            self.queries.entries[i].1.drop_address(peer, addr);
            i = i + 1;
        }
        proof {
            lemma_changed(before, *self, address_dropped(*peer, *addr));
        }
    }

    /// Tries a new address of a peer in place of an old one.
    pub fn swap_address(&mut self, peer: &PeerId, old_addr: &Multiaddr, new_addr: &Multiaddr)
        requires
            old(self).wf(),
        ensures
            final(self).wf(),
            each_query(*old(self), *final(self), address_swapped(*peer, *old_addr, *new_addr)),
    {
        let ghost before = *self;
        let ghost change = address_swapped(*peer, *old_addr, *new_addr);
        let n: usize = self.queries.entries.len();
        let mut i: usize = 0;
        while i < n
            invariant
                n == self.queries.entries@.len(),
                n == before.queries.entries@.len(),
                i <= n,
                before.wf(),
                change == address_swapped(*peer, *old_addr, *new_addr),
                partly_changed(before, *self, i as int, change),
            decreases n - i,
        {
            proof {
                assert(self.queries.entries@[i as int] == before.queries.entries@[i as int]);
                assert(before.queries.entries@[i as int].1.wf());
            }
            self.queries.entries[i].1.swap_address(peer, old_addr, new_addr);
            i = i + 1;
        }
        proof {
            lemma_changed(before, *self, change);
        }
    }

    /// Notes that a peer has failed.
    pub fn fail_peer(&mut self, peer: &PeerId)
        requires
            old(self).wf(),
        ensures
            final(self).wf(),
            each_query(*old(self), *final(self), peer_failed(*peer)),
    {
        let ghost before = *self;
        let n: usize = self.queries.entries.len();
        let mut i: usize = 0;
        while i < n
            invariant
                n == self.queries.entries@.len(),
                n == before.queries.entries@.len(),
                i <= n,
                before.wf(),
                partly_changed(before, *self, i as int, peer_failed(*peer)),
            decreases n - i,
        {
            proof {
                assert(self.queries.entries@[i as int] == before.queries.entries@[i as int]);
                assert(before.queries.entries@[i as int].1.wf());
            }
            self.queries.entries[i].1.on_failure(peer);
            i = i + 1;
        }
        proof {
            lemma_changed(before, *self, peer_failed(*peer));
        }
    }

    /// Takes the first request of each query that waits for a connection to a peer.
    pub fn take_rpcs(&mut self, peer: &PeerId) -> (r: Vec<HandlerIn>)
        requires
            old(self).wf(),
        ensures
            final(self).wf(),
            each_query(*old(self), *final(self), rpc_taken(*peer)),
            r@ == taken_rpcs(old(self).queries.entries@, *peer),
    {
        let ghost before = *self;
        let ghost entries = before.queries.entries@;
        let mut r: Vec<HandlerIn> = Vec::new();
        let n: usize = self.queries.entries.len();
        let mut i: usize = 0;
        while i < n
            invariant
                n == self.queries.entries@.len(),
                n == before.queries.entries@.len(),
                i <= n,
                before.wf(),
                entries == before.queries.entries@,
                partly_changed(before, *self, i as int, rpc_taken(*peer)),
                r@ == taken_rpcs(entries.take(i as int), *peer),
            decreases n - i,
        {
            proof {
                assert(self.queries.entries@[i as int] == entries[i as int]);
                assert(before.queries.entries@[i as int].1.wf());
                assert(entries.take(i + 1).drop_last() =~= entries.take(i as int));
                assert(entries.take(i + 1).last() == entries[i as int]);
            }
            if let Some(event) = self.queries.entries[i].1.take_rpc(peer) {
                r.push(event);
            }
            i = i + 1;
        }
        proof {
            lemma_changed(before, *self, rpc_taken(*peer));
            assert(entries.take(n as int) =~= entries);
        }
        r
    }
}

/// Whether the first `n` queries went through a change, and the others did not.
pub open spec fn partly_changed(
    before: QueryPool,
    after: QueryPool,
    n: int,
    change: spec_fn(Query, Query) -> bool,
) -> bool {
    &&& after == (QueryPool { queries: after.queries, ..before })
    &&& after.queries.entries@.len() == before.queries.entries@.len()
    &&& forall|i: int|
        n <= i < before.queries.entries@.len() ==> #[trigger] after.queries.entries@[i]
            == before.queries.entries@[i]
    &&& forall|i: int|
        0 <= i < n ==> (#[trigger] after.queries.entries@[i]).0 == before.queries.entries@[i].0
            && change(before.queries.entries@[i].1, after.queries.entries@[i].1)
            && after.queries.entries@[i].1.wf() && after.queries.entries@[i].1.id
            == before.queries.entries@[i].1.id
}

/// A change of each query keeps the pool in order.
proof fn lemma_changed(
    before: QueryPool,
    after: QueryPool,
    change: spec_fn(Query, Query) -> bool,
)
    requires
        before.wf(),
        partly_changed(before, after, before.queries.entries@.len() as int, change),
    ensures
        after.wf(),
        each_query(before, after, change),
{
    let n = before.queries.entries@.len();
    assert forall|a: int, b: int| 0 <= a < b < n implies (#[trigger] after.queries.entries@[a]).0
        != (#[trigger] after.queries.entries@[b]).0 by {
        assert(before.queries.entries@[a].0 != before.queries.entries@[b].0);
    }
    assert forall|i: int| 0 <= i < n implies (#[trigger] after.queries.entries@[i]).1.wf()
        && after.queries.entries@[i].1.id == after.queries.entries@[i].0 by {
        assert(before.queries.entries@[i].1.wf());
    }
}

} // verus!
