//! The operations of the routing table.

use libp2p_core::Multiaddr;
use libp2p_identity::PeerId;
use vstd::prelude::*;

use crate::assoc::with_item;
use crate::kad::addresses::removed;
use crate::kad::addresses::replaced;
use crate::kad::addresses::Addresses;
use crate::kad::config::KBucketConfig;
use crate::kad::kbucket::awaits_other;
use crate::kad::kbucket::between;
use crate::kad::kbucket::empty_table;
use crate::kad::kbucket::entry_views;
use crate::kad::kbucket::in_bucket;
use crate::kad::kbucket::lemma_filter_push;
use crate::kad::kbucket::lemma_filter_some;
use crate::kad::kbucket::node_views;
use crate::kad::kbucket::peers_of;
use crate::kad::kbucket::pending_views;
use crate::kad::kbucket::AppliedPending;
use crate::kad::kbucket::Entry;
use crate::kad::kbucket::EntryView;
use crate::kad::kbucket::InsertResult;
use crate::kad::kbucket::KBucketRef;
use crate::kad::kbucket::KBucketsTable;
use crate::kad::kbucket::Node;
use crate::kad::kbucket::NodeStatus;
use crate::kad::kbucket::NodeView;
use crate::kad::kbucket::PendingNode;
use crate::kad::kbucket::PendingView;
use crate::kad::kbucket::Place;
use crate::kad::kbucket::TableView;
use crate::kad::key::bucket_range;
use crate::kad::key::is_bucket_range;
use crate::kad::key::key_of_peer;
use crate::kad::key::law_distance_is_a_metric;
use crate::kad::key::Distance;
use crate::kad::key::KeyBytes;
use crate::kad::order::law_by_distance_sorts;
use crate::kad::order::sort_by_distance;
use crate::time::Moment;
use crate::time::MAX_ELAPSED;

verus! {

impl View for KBucketsTable {
    type V = TableView;

    open spec fn view(&self) -> TableView {
        TableView {
            local: self.local_peer,
            size: self.config.bucket_size@,
            timeout: self.config.pending_timeout,
            nodes: node_views(self.nodes@),
            pending: pending_views(self.pending@),
        }
    }
}

/// Whether a bucket is shown as it is.
pub open spec fn shows_bucket(r: KBucketRef, t: TableView, b: nat) -> bool {
    &&& r.index == b
    &&& is_bucket_range(r.range, b)
    &&& entry_views(r.entries@) == t.bucket_nodes(b)
}

/// Whether the bucket of a key is shown, or none if the key is the local one.
pub open spec fn shows_bucket_of(r: Option<KBucketRef>, t: TableView, key: KeyBytes) -> bool {
    match r {
        Some(bucket) => key != t.local_key() && shows_bucket(bucket, t, t.bucket(key)),
        None => key == t.local_key(),
    }
}

/// Whether the buckets that are not empty are shown as they are, from the closest to the
/// farthest.
pub open spec fn shows_buckets(r: Seq<KBucketRef>, t: TableView) -> bool {
    &&& forall|i: int|
        0 <= i < r.len() ==> (#[trigger] r[i]).index < 256 && shows_bucket(
            r[i],
            t,
            r[i].index as nat,
        ) && r[i].entries@.len() > 0
    &&& forall|i: int, j: int|
        0 <= i < j < r.len() ==> (#[trigger] r[i]).index < (#[trigger] r[j]).index
    &&& forall|b: nat|
        b < 256 && (#[trigger] t.bucket_nodes(b)).len() > 0 ==> exists|i: int|
            0 <= i < r.len() && (#[trigger] r[i]).index == b
}

impl KBucketsTable {
    /// What holds of a routing table at all times.
    pub open spec fn wf(&self) -> bool {
        &&& self.local_key == key_of_peer(self.local_peer)
        &&& forall|i: int| 0 <= i < self.nodes@.len() ==> (#[trigger] self.nodes@[i]).wf()
        &&& forall|i: int| 0 <= i < self.pending@.len() ==> (#[trigger] self.pending@[i]).node.wf()
        &&& self@.wf()
    }

    /// The routing table of a peer, without other peers.
    pub fn new(local_peer: PeerId, config: KBucketConfig) -> (r: Self)
        ensures
            r.wf(),
            r@ == empty_table(local_peer, config),
    {
        let local_key = KeyBytes::from_peer(&local_peer);
        let size: usize = config.bucket_size.get();
        let r = KBucketsTable {
            local_peer,
            local_key,
            config,
            nodes: Vec::new(),
            pending: Vec::new(),
        };
        proof {
            assert(r@.nodes =~= Seq::empty());
            assert(r@.pending =~= Seq::empty());
            assert forall|b: nat| (#[trigger] r@.bucket_nodes(b)).len() <= r@.size by {
                reveal(Seq::filter);
            }
        }
        r
    }

    /// The number of peers.
    pub fn len(&self) -> (r: usize)
        ensures
            r == self@.nodes.len(),
    {
        self.nodes.len()
    }

    /// The bucket of a key, or `None` if it is the local key.
    pub fn bucket_index(&self, key: &KeyBytes) -> (r: Option<u32>)
        requires
            self.wf(),
        ensures
            r is None <==> *key == self@.local_key(),
            r matches Some(b) ==> b == self@.bucket(*key) && b < 256,
    {
        proof {
            law_distance_is_a_metric(self.local_key, *key, *key);
        }
        self.local_key.distance(key).ilog2()
    }

    /// The range of the bucket of a key.
    pub fn range_of(&self, key: &KeyBytes) -> (r: (Distance, Distance))
        requires
            self.wf(),
            *key != self@.local_key(),
        ensures
            is_bucket_range(r, self@.bucket(*key)),
    {
        match self.bucket_index(key) {
            Some(b) => bucket_range(b),
            None => bucket_range(0),
        }
    }

    /// Where a key stands, or `None` if it is the local key.
    pub fn entry(&self, key: &KeyBytes) -> (r: Option<Entry>)
        requires
            self.wf(),
        ensures
            match self@.place(*key) {
                Place::Local => r is None,
                Place::Present(i) => {
                    &&& r matches Some(Entry::Present(k)) && k == i
                    &&& 0 <= i < self.nodes@.len()
                    &&& self@.nodes[i].key() == *key
                },
                Place::Pending(i) => {
                    &&& r matches Some(Entry::Pending(k)) && k == i
                    &&& 0 <= i < self.pending@.len()
                    &&& self@.pending[i].node.key() == *key
                },
                Place::Absent => r == Some(Entry::Absent),
            },
    {
        if *key == self.local_key {
            return None;
        }
        let n: usize = self.nodes.len();
        let mut i: usize = 0;
        while i < n
            invariant
                n == self.nodes@.len(),
                i <= n,
                self.wf(),
                *key != self.local_key,
                forall|j: int| 0 <= j < i ==> (#[trigger] self.nodes@[j]).key != *key,
            decreases n - i,
        {
            if self.nodes[i].key == *key {
                proof {
                    assert(self@.nodes[i as int] == self.nodes@[i as int]@);
                    self@.lemma_present(i as int);
                }
                return Some(Entry::Present(i));
            }
            i = i + 1;
        }
        assert forall|j: int| !self@.node_is(j, *key) by {
            if 0 <= j < self@.nodes.len() {
                assert(self@.nodes[j] == self.nodes@[j]@);
                assert(self.nodes@[j].wf());
            }
        }
        let m: usize = self.pending.len();
        let mut i: usize = 0;
        while i < m
            invariant
                m == self.pending@.len(),
                i <= m,
                self.wf(),
                *key != self.local_key,
                forall|j: int| !self@.node_is(j, *key),
                forall|j: int| 0 <= j < i ==> (#[trigger] self.pending@[j]).node.key != *key,
            decreases m - i,
        {
            if self.pending[i].node.key == *key {
                proof {
                    assert(self@.pending[i as int] == self.pending@[i as int]@);
                    self@.lemma_waiting(i as int);
                }
                return Some(Entry::Pending(i));
            }
            i = i + 1;
        }
        assert forall|j: int| !self@.pending_is(j, *key) by {
            if 0 <= j < self@.pending.len() {
                assert(self@.pending[j] == self.pending@[j]@);
                assert(self.pending@[j].node.wf());
            }
        }
        Some(Entry::Absent)
    }

    /// Adds an address to the peer at `i`, and says whether it is new.
    pub fn add_node_address(&mut self, i: usize, addr: Multiaddr) -> (r: bool)
        requires
            old(self).wf(),
            i < old(self)@.nodes.len(),
        ensures
            final(self).wf(),
            final(self)@ == old(self)@.with_node_addrs(
                i as int,
                with_item(old(self)@.nodes[i as int].addrs, addr),
            ),
            r == !old(self)@.nodes[i as int].addrs.contains(addr),
    {
        let ghost before = self@;
        assert(before.nodes[i as int] == self.nodes@[i as int]@);
        let r = self.nodes[i].addresses.insert(addr);
        proof {
            let addrs = self.nodes@[i as int].addresses@;
            before.lemma_node_addrs_wf(i as int, addrs);
            assert(self@.nodes =~= before.with_node_addrs(i as int, addrs).nodes);
        }
        r
    }

    /// Adds an address to the waiting peer at `i`.
    pub fn add_pending_address(&mut self, i: usize, addr: Multiaddr)
        requires
            old(self).wf(),
            i < old(self)@.pending.len(),
        ensures
            final(self).wf(),
            final(self)@ == old(self)@.with_pending_addrs(
                i as int,
                with_item(old(self)@.pending[i as int].node.addrs, addr),
            ),
    {
        let ghost before = self@;
        assert(before.pending[i as int] == self.pending@[i as int]@);
        self.pending[i].node.addresses.insert(addr);
        proof {
            let addrs = self.pending@[i as int].node.addresses@;
            before.lemma_pending_update_wf(
                i as int,
                NodeView { addrs, ..before.pending[i as int].node },
            );
            assert(self@.pending =~= before.with_pending_addrs(i as int, addrs).pending);
        }
    }

    /// Removes an address of the peer at `i`, unless it is the only one, which is an error.
    pub fn remove_node_address(&mut self, i: usize, addr: &Multiaddr) -> (r: Result<(), ()>)
        requires
            old(self).wf(),
            i < old(self)@.nodes.len(),
        ensures
            final(self).wf(),
            final(self)@ == old(self)@.with_node_addrs(
                i as int,
                removed(old(self)@.nodes[i as int].addrs, *addr),
            ),
            r is Err <==> old(self)@.nodes[i as int].addrs =~= seq![*addr],
            r is Err ==> final(self)@ == old(self)@,
    {
        let ghost before = self@;
        assert(before.nodes[i as int] == self.nodes@[i as int]@);
        let r = self.nodes[i].addresses.remove(addr);
        proof {
            let addrs = self.nodes@[i as int].addresses@;
            before.lemma_node_addrs_wf(i as int, addrs);
            assert(self@.nodes =~= before.with_node_addrs(i as int, addrs).nodes);
            if r is Err {
                assert(self@.nodes =~= before.nodes);
            }
        }
        r
    }

    /// Removes an address of the waiting peer at `i`, unless it is the only one, which is an
    /// error.
    pub fn remove_pending_address(&mut self, i: usize, addr: &Multiaddr) -> (r: Result<(), ()>)
        requires
            old(self).wf(),
            i < old(self)@.pending.len(),
        ensures
            final(self).wf(),
            final(self)@ == old(self)@.with_pending_addrs(
                i as int,
                removed(old(self)@.pending[i as int].node.addrs, *addr),
            ),
            r is Err <==> old(self)@.pending[i as int].node.addrs =~= seq![*addr],
            r is Err ==> final(self)@ == old(self)@,
    {
        let ghost before = self@;
        assert(before.pending[i as int] == self.pending@[i as int]@);
        let r = self.pending[i].node.addresses.remove(addr);
        proof {
            let addrs = self.pending@[i as int].node.addresses@;
            before.lemma_pending_update_wf(
                i as int,
                NodeView { addrs, ..before.pending[i as int].node },
            );
            assert(self@.pending =~= before.with_pending_addrs(i as int, addrs).pending);
            if r is Err {
                assert(self@.pending =~= before.pending);
            }
        }
        r
    }

    /// Replaces an address of the peer at `i`, and says whether it was there.
    pub fn replace_node_address(
        &mut self,
        i: usize,
        old_addr: &Multiaddr,
        new_addr: &Multiaddr,
    ) -> (r: bool)
        requires
            old(self).wf(),
            i < old(self)@.nodes.len(),
        ensures
            final(self).wf(),
            final(self)@ == old(self)@.with_node_addrs(
                i as int,
                replaced(old(self)@.nodes[i as int].addrs, *old_addr, *new_addr),
            ),
            r == old(self)@.nodes[i as int].addrs.contains(*old_addr),
    {
        let ghost before = self@;
        assert(before.nodes[i as int] == self.nodes@[i as int]@);
        let r = self.nodes[i].addresses.replace(old_addr, new_addr);
        proof {
            let addrs = self.nodes@[i as int].addresses@;
            before.lemma_node_addrs_wf(i as int, addrs);
            assert(self@.nodes =~= before.with_node_addrs(i as int, addrs).nodes);
        }
        r
    }

    /// Replaces an address of the waiting peer at `i`, and says whether it was there.
    pub fn replace_pending_address(
        &mut self,
        i: usize,
        old_addr: &Multiaddr,
        new_addr: &Multiaddr,
    ) -> (r: bool)
        requires
            old(self).wf(),
            i < old(self)@.pending.len(),
        ensures
            final(self).wf(),
            final(self)@ == old(self)@.with_pending_addrs(
                i as int,
                replaced(old(self)@.pending[i as int].node.addrs, *old_addr, *new_addr),
            ),
            r == old(self)@.pending[i as int].node.addrs.contains(*old_addr),
    {
        let ghost before = self@;
        assert(before.pending[i as int] == self.pending@[i as int]@);
        let r = self.pending[i].node.addresses.replace(old_addr, new_addr);
        proof {
            let addrs = self.pending@[i as int].node.addresses@;
            before.lemma_pending_update_wf(
                i as int,
                NodeView { addrs, ..before.pending[i as int].node },
            );
            assert(self@.pending =~= before.with_pending_addrs(i as int, addrs).pending);
        }
        r
    }

    /// Removes the peer at `i`.
    pub fn remove_node(&mut self, i: usize) -> (r: EntryView)
        requires
            old(self).wf(),
            i < old(self)@.nodes.len(),
        ensures
            final(self).wf(),
            final(self)@ == old(self)@.with_nodes(old(self)@.nodes.remove(i as int)),
            r@ == old(self)@.nodes[i as int],
    {
        let ghost before = self@;
        let ghost nodes = self.nodes@;
        let node = self.nodes.remove(i);
        proof {
            before.lemma_remove_wf(i as int);
            assert(self@.nodes =~= before.nodes.remove(i as int));
            assert(self@.pending =~= before.pending);
        }
        EntryView { peer: node.peer, addresses: node.addresses, status: node.status }
    }

    /// Removes the waiting peer at `i`.
    pub fn remove_pending(&mut self, i: usize) -> (r: EntryView)
        requires
            old(self).wf(),
            i < old(self)@.pending.len(),
        ensures
            final(self).wf(),
            final(self)@ == old(self)@.with_pending(old(self)@.pending.remove(i as int)),
            r@ == old(self)@.pending[i as int].node,
    {
        let ghost before = self@;
        let pending = self.pending.remove(i);
        proof {
            before.lemma_pending_remove_wf(i as int);
            assert(self@.pending =~= before.pending.remove(i as int));
            assert(self@.nodes =~= before.nodes);
        }
        let node = pending.node;
        EntryView { peer: node.peer, addresses: node.addresses, status: node.status }
    }

    /// Changes the status of the waiting peer at `i`.
    pub fn set_pending_status(&mut self, i: usize, status: NodeStatus)
        requires
            old(self).wf(),
            i < old(self)@.pending.len(),
        ensures
            final(self).wf(),
            final(self)@ == old(self)@.with_pending_status(i as int, status),
    {
        let ghost before = self@;
        assert(before.pending[i as int] == self.pending@[i as int]@);
        self.pending[i].node.status = status;
        proof {
            before.lemma_pending_update_wf(
                i as int,
                NodeView { status, ..before.pending[i as int].node },
            );
            assert(self@.pending =~= before.with_pending_status(i as int, status).pending);
            assert(self@.nodes =~= before.nodes);
        }
    }

    /// Whether the peer at `i` is a disconnected one of the bucket.
    fn is_disconnected_at(&self, b: u32, i: usize) -> (r: bool)
        requires
            self.wf(),
            i < self.nodes@.len(),
        ensures
            r == self@.disconnected_at(b as nat, i as int),
    {
        assert(self@.nodes[i as int] == self.nodes@[i as int]@);
        assert(self.nodes@[i as int].wf());
        match self.bucket_index(&self.nodes[i].key) {
            Some(c) => c == b && self.nodes[i].status == NodeStatus::Disconnected,
            None => false,
        }
    }

    /// The peer of the bucket that has been disconnected longest.
    fn stalest(&self, b: u32) -> (r: Option<usize>)
        requires
            self.wf(),
        ensures
            r is None <==> !(exists|i: int| self@.disconnected_at(b as nat, i)),
            r matches Some(i) ==> i < self.nodes@.len() && self@.stalest_at(b as nat, i as int),
    {
        let n: usize = self.nodes.len();
        let mut i: usize = 0;
        while i < n
            invariant
                n == self.nodes@.len(),
                i <= n,
                self.wf(),
                forall|j: int| 0 <= j < i ==> !(#[trigger] self@.disconnected_at(b as nat, j)),
            decreases n - i,
        {
            if self.is_disconnected_at(b, i) {
                return Some(i);
            }
            i = i + 1;
        }
        None
    }

    /// The number of peers of a bucket.
    fn bucket_len(&self, b: u32) -> (r: usize)
        requires
            self.wf(),
        ensures
            r == self@.bucket_nodes(b as nat).len(),
    {
        let ghost f = in_bucket(self@.local_key(), b as nat);
        let n: usize = self.nodes.len();
        let mut i: usize = 0;
        let mut count: usize = 0;
        proof {
            reveal(Seq::filter);
        }
        while i < n
            invariant
                n == self.nodes@.len(),
                count <= i <= n,
                self.wf(),
                f == in_bucket(self@.local_key(), b as nat),
                count == self@.nodes.take(i as int).filter(f).len(),
            decreases n - i,
        {
            proof {
                assert(self@.nodes[i as int] == self.nodes@[i as int]@);
                assert(self.nodes@[i as int].wf());
                assert(self@.nodes.take(i + 1) =~= self@.nodes.take(i as int).push(
                    self@.nodes[i as int],
                ));
                lemma_filter_push(self@.nodes.take(i as int), self@.nodes[i as int], f);
            }
            match self.bucket_index(&self.nodes[i].key) {
                Some(c) => {
                    if c == b {
                        count = count + 1;
                    }
                },
                None => {},
            }
            i = i + 1;
        }
        assert(self@.nodes.take(n as int) =~= self@.nodes);
        count
    }

    /// Whether some peer waits for a place in the bucket.
    fn is_awaited(&self, b: u32) -> (r: bool)
        requires
            self.wf(),
        ensures
            r == self@.awaited(b as nat),
    {
        let n: usize = self.pending.len();
        let mut i: usize = 0;
        while i < n
            invariant
                n == self.pending@.len(),
                i <= n,
                self.wf(),
                forall|j: int|
                    0 <= j < i ==> self@.bucket((#[trigger] self@.pending[j]).node.key())
                        != b as nat,
            decreases n - i,
        {
            proof {
                assert(self@.pending[i as int] == self.pending@[i as int]@);
                assert(self.pending@[i as int].node.wf());
            }
            match self.bucket_index(&self.pending[i].node.key) {
                Some(c) => {
                    if c == b {
                        return true;
                    }
                },
                None => {},
            }
            i = i + 1;
        }
        false
    }

    /// Sends away the peers that wait for a place in a bucket.
    fn drop_awaiting(&mut self, b: u32)
        requires
            old(self).wf(),
        ensures
            final(self).wf(),
            final(self)@ == old(self)@.with_pending(old(self)@.not_awaiting(b as nat)),
    {
        let ghost before = self@;
        let ghost f = awaits_other(before.local_key(), b as nat);
        let ghost mut k: int = 0;
        let mut i: usize = 0;
        proof {
            reveal(Seq::filter);
            assert(before.pending.take(0).filter(f) =~= Seq::empty());
            assert(self@.pending.take(0) =~= Seq::empty());
            assert(self@.pending.skip(0) =~= before.pending.skip(0));
        }
        while i < self.pending.len()
            invariant
                i <= self.pending@.len(),
                0 <= k <= before.pending.len(),
                before.pending.len() - k == self.pending@.len() - i,
                self.wf(),
                before.wf(),
                f == awaits_other(before.local_key(), b as nat),
                self@ == before.with_pending(self@.pending),
                self@.pending.take(i as int) == before.pending.take(k).filter(f),
                self@.pending.skip(i as int) == before.pending.skip(k),
            decreases self.pending@.len() - i,
        {
            let ghost now = self@;
            proof {
                assert(now.pending[i as int] == self.pending@[i as int]@);
                assert(self.pending@[i as int].node.wf());
                assert(now.pending.skip(i as int)[0] == now.pending[i as int]);
                assert(before.pending.skip(k)[0] == before.pending[k]);
                assert(before.pending.take(k + 1) =~= before.pending.take(k).push(
                    before.pending[k],
                ));
                lemma_filter_push(before.pending.take(k), before.pending[k], f);
            }
            let here = match self.bucket_index(&self.pending[i].node.key) {
                Some(c) => c == b,
                None => false,
            };
            if here {
                self.remove_pending(i);
                proof {
                    assert(self@.pending.take(i as int) =~= now.pending.take(i as int));
                    assert(self@.pending.skip(i as int) =~= before.pending.skip(k + 1)) by {
                        assert forall|j: int|
                            0 <= j < self@.pending.len() - i implies #[trigger] self@.pending.skip(
                            i as int,
                        )[j] == before.pending.skip(k + 1)[j] by {
                            assert(now.pending.skip(i as int)[j + 1] == before.pending.skip(k)[j
                                + 1]);
                        }
                    }
                }
            } else {
                proof {
                    assert(now.pending.take(i + 1) =~= now.pending.take(i as int).push(
                        now.pending[i as int],
                    ));
                    assert(now.pending.skip(i + 1) =~= before.pending.skip(k + 1)) by {
                        assert forall|j: int|
                            0 <= j < now.pending.len() - i - 1 implies #[trigger] now.pending.skip(
                            i + 1,
                        )[j]
                            == before.pending.skip(k + 1)[j] by {
                            assert(now.pending.skip(i as int)[j + 1] == before.pending.skip(k)[j
                                + 1]);
                        }
                    }
                }
                i = i + 1;
            }
            proof {
                k = k + 1;
            }
        }
        proof {
            assert(self@.pending.take(i as int) =~= self@.pending);
            assert(before.pending.take(k) =~= before.pending);
        }
    }

    /// Changes the status of the peer at `i`.
    pub fn set_node_status(&mut self, i: usize, status: NodeStatus)
        requires
            old(self).wf(),
            i < old(self)@.nodes.len(),
        ensures
            final(self).wf(),
            final(self)@ == old(self)@.with_node_status(i as int, status),
    {
        let ghost before = self@;
        proof {
            assert(before.nodes[i as int] == self.nodes@[i as int]@);
            assert(self.nodes@[i as int].wf());
            before.lemma_node_status_wf(i as int, status);
        }
        let b: u32 = match self.bucket_index(&self.nodes[i].key) {
            Some(b) => b,
            None => 0,
        };
        let stalest = self.stalest(b);
        let freed = match stalest {
            Some(j) => j == i && status == NodeStatus::Connected,
            None => false,
        };
        proof {
            if before.stalest_at(b as nat, i as int) {
                before.lemma_stalest_unique(b as nat, i as int, stalest->0 as int);
            }
        }
        if freed {
            self.drop_awaiting(b);
        }
        let ghost mid = self@;
        let ghost nodes = self.nodes@;
        let mut node = self.nodes.remove(i);
        node.status = status;
        self.nodes.push(node);
        proof {
            assert(mid.nodes == before.nodes);
            assert(self@.nodes =~= before.with_node_status(i as int, status).nodes);
            assert(self@.pending =~= mid.pending);
            assert forall|j: int| 0 <= j < self.nodes@.len() implies (
            #[trigger] self.nodes@[j]).wf() by {
                if j < i {
                    assert(nodes[j].wf());
                } else if j < nodes.len() - 1 {
                    assert(nodes[j + 1].wf());
                } else {
                    assert(nodes[i as int].wf());
                }
            }
        }
    }

    /// Inserts a peer that is not there, or lets it wait for a place.
    pub fn insert(
        &mut self,
        peer: PeerId,
        addresses: Addresses,
        status: NodeStatus,
        now: Moment,
    ) -> (r: InsertResult)
        requires
            old(self).wf(),
            addresses.wf(),
            old(self)@.place_of(peer) is Absent,
            now.nanos <= MAX_ELAPSED,
        ensures
            final(self).wf(),
            final(self)@ == old(self)@.inserted(
                (NodeView { peer, addrs: addresses@, status }),
                now,
            ),
            old(self)@.insertion((NodeView { peer, addrs: addresses@, status }), r),
    {
        let ghost before = self@;
        let ghost view = NodeView { peer, addrs: addresses@, status };
        let key = KeyBytes::from_peer(&peer);
        proof {
            before.lemma_place(key);
            before.lemma_inserted_wf(view, now);
        }
        let b: u32 = match self.bucket_index(&key) {
            Some(b) => b,
            None => 0,
        };
        let node = Node { peer, key, addresses, status };
        if self.bucket_len(b) < self.config.bucket_size.get() {
            self.nodes.push(node);
            proof {
                assert(self@.nodes =~= before.nodes.push(view));
                assert(self@.pending =~= before.pending);
            }
            return InsertResult::Inserted;
        }
        let connected = match status {
            NodeStatus::Connected => true,
            NodeStatus::Disconnected => false,
        };
        if !connected || self.is_awaited(b) {
            return InsertResult::Full;
        }
        match self.stalest(b) {
            Some(i) => {
                let disconnected = self.nodes[i].peer;
                proof {
                    assert(before.nodes[i as int] == self.nodes@[i as int]@);
                    assert(before.stalest_at(b as nat, i as int));
                }
                let replace = now.plus(self.config.pending_timeout);
                self.pending.push(PendingNode { node, replace });
                proof {
                    assert(self@.pending =~= before.pending.push(
                        PendingView { node: view, replace },
                    ));
                    assert(self@.nodes =~= before.nodes);
                }
                InsertResult::Pending { disconnected }
            },
            None => InsertResult::Full,
        }
    }

    /// The peers of the table.
    fn peers(&self) -> (r: Vec<PeerId>)
        ensures
            r@ == peers_of(self@.nodes),
    {
        let mut r: Vec<PeerId> = Vec::new();
        let n: usize = self.nodes.len();
        let mut i: usize = 0;
        while i < n
            invariant
                n == self.nodes@.len(),
                i <= n,
                r@.len() == i,
                forall|j: int| 0 <= j < i ==> r@[j] == (#[trigger] self@.nodes[j]).peer,
            decreases n - i,
        {
            assert(self@.nodes[i as int] == self.nodes@[i as int]@);
            r.push(self.nodes[i].peer);
            i = i + 1;
        }
        assert(r@ =~= peers_of(self@.nodes));
        r
    }

    /// The peers, from the closest to `target` to the farthest.
    pub fn closest_keys(&self, target: &KeyBytes) -> (r: Vec<PeerId>)
        ensures
            r@ == self@.closest_peers(*target),
    {
        let peers = self.peers();
        sort_by_distance(&peers, target)
    }

    /// Shows the peer at `i`.
    pub fn show_node(&self, i: usize) -> (r: EntryView)
        requires
            i < self@.nodes.len(),
        ensures
            r@ == self@.nodes[i as int],
    {
        EntryView {
            peer: self.nodes[i].peer,
            addresses: self.nodes[i].addresses.duplicate(),
            status: self.nodes[i].status,
        }
    }

    /// Shows the waiting peer at `i`.
    pub fn show_pending(&self, i: usize) -> (r: EntryView)
        requires
            i < self@.pending.len(),
        ensures
            r@ == self@.pending[i as int].node,
    {
        let node = &self.pending[i].node;
        EntryView {
            peer: node.peer,
            addresses: node.addresses.duplicate(),
            status: node.status,
        }
    }

    /// Shows the peers, from the closest to `target` to the farthest.
    pub fn closest(&self, target: &KeyBytes) -> (r: Vec<EntryView>)
        requires
            self.wf(),
        ensures
            r@.len() == self@.nodes.len(),
            forall|j: int|
                0 <= j < r@.len() ==> (#[trigger] r@[j])@ == self@.node_of(
                    self@.closest_peers(*target)[j],
                ) && r@[j].peer == self@.closest_peers(*target)[j],
    {
        let order = self.closest_keys(target);
        let mut r: Vec<EntryView> = Vec::new();
        let n: usize = order.len();
        let mut i: usize = 0;
        proof {
            law_by_distance_sorts(peers_of(self@.nodes), *target);
        }
        while i < n
            invariant
                n == order@.len(),
                n == self@.nodes.len(),
                i <= n,
                r@.len() == i,
                self.wf(),
                order@ == self@.closest_peers(*target),
                forall|p: PeerId| #[trigger]
                    order@.contains(p) <==> peers_of(self@.nodes).contains(p),
                forall|j: int|
                    0 <= j < i ==> (#[trigger] r@[j])@ == self@.node_of(order@[j]) && r@[j].peer
                        == order@[j],
            decreases n - i,
        {
            let key = KeyBytes::from_peer(&order[i]);
            proof {
                assert(order@.contains(order@[i as int]));
                let k = peers_of(self@.nodes).index_of(order@[i as int]);
                assert(self@.nodes[k].peer == order@[i as int]);
                self@.lemma_present(k);
            }
            match self.entry(&key) {
                Some(Entry::Present(k)) => {
                    r.push(self.show_node(k));
                },
                _ => {
                    assert(false);
                },
            }
            i = i + 1;
        }
        r
    }

    /// The number of peers that are not farther from `target` than the local peer.
    pub fn count_nodes_between(&self, target: &KeyBytes) -> (r: usize)
        requires
            self.wf(),
        ensures
            r == self@.count_between(*target),
    {
        let ghost f = between(self@.local_key(), *target);
        let limit = self.local_key.distance(target);
        let n: usize = self.nodes.len();
        let mut i: usize = 0;
        let mut count: usize = 0;
        proof {
            reveal(Seq::filter);
        }
        while i < n
            invariant
                n == self.nodes@.len(),
                count <= i <= n,
                self.wf(),
                limit == self@.local_key().spec_distance(*target),
                f == between(self@.local_key(), *target),
                count == self@.nodes.take(i as int).filter(f).len(),
            decreases n - i,
        {
            proof {
                assert(self@.nodes[i as int] == self.nodes@[i as int]@);
                assert(self.nodes@[i as int].wf());
                assert(self@.nodes.take(i + 1) =~= self@.nodes.take(i as int).push(
                    self@.nodes[i as int],
                ));
                lemma_filter_push(self@.nodes.take(i as int), self@.nodes[i as int], f);
            }
            if self.nodes[i].key.distance(target).is_le(&limit) {
                count = count + 1;
            }
            i = i + 1;
        }
        assert(self@.nodes.take(n as int) =~= self@.nodes);
        count
    }

    /// The waiting peer at `i` gets its place, or is sent away.
    fn apply_pending(&mut self, i: usize) -> (r: Option<AppliedPending>)
        requires
            old(self).wf(),
            i < old(self)@.pending.len(),
        ensures
            final(self).wf(),
            final(self)@ == old(self)@.applied(i as int).0,
            match r {
                Some(a) => old(self)@.applied(i as int).1 == Some(a@) && a.addresses.wf(),
                None => old(self)@.applied(i as int).1 is None,
            },
    {
        let ghost before = self@;
        proof {
            before.lemma_applied_wf(i as int);
            assert(before.pending[i as int] == self.pending@[i as int]@);
            assert(self.pending@[i as int].node.wf());
        }
        let b: u32 = match self.bucket_index(&self.pending[i].node.key) {
            Some(b) => b,
            None => 0,
        };
        let room = self.bucket_len(b) < self.config.bucket_size.get();
        let stalest = self.stalest(b);
        let ghost pending0 = self.pending@;
        let pending = self.pending.remove(i);
        proof {
            assert(self@.pending =~= before.pending.remove(i as int));
            assert(self@.nodes =~= before.nodes);
            assert forall|j: int| 0 <= j < self.pending@.len() implies (
            #[trigger] self.pending@[j]).node.wf() by {
                if j < i {
                    assert(pending0[j].node.wf());
                } else {
                    assert(pending0[j + 1].node.wf());
                }
            }
        }
        let node = pending.node;
        let peer = node.peer;
        let addresses = node.addresses.duplicate();
        let status = node.status;
        if room {
            self.nodes.push(node);
            assert(self@.nodes =~= before.nodes.push(before.pending[i as int].node));
            return Some(AppliedPending { peer, addresses, status, evicted: None });
        }
        match stalest {
            Some(k) => {
                proof {
                    let k0 = choose|k: int| before.stalest_at(b as nat, k);
                    assert(before.stalest_at(b as nat, k as int));
                    before.lemma_stalest_unique(b as nat, k as int, k0);
                    assert(before.nodes[k as int] == self.nodes@[k as int]@);
                }
                let ghost nodes0 = self.nodes@;
                let evicted = self.nodes.remove(k);
                self.nodes.push(node);
                proof {
                    assert(self@.nodes =~= before.nodes.remove(k as int).push(
                        before.pending[i as int].node,
                    ));
                    assert forall|j: int| 0 <= j < self.nodes@.len() implies (
                    #[trigger] self.nodes@[j]).wf() by {
                        if j < k {
                            assert(nodes0[j].wf());
                        } else if j < nodes0.len() - 1 {
                            assert(nodes0[j + 1].wf());
                        }
                    }
                }
                Some(AppliedPending { peer, addresses, status, evicted: Some(evicted.peer) })
            },
            None => None,
        }
    }

    /// The first of the waiting peers that has waited long enough gets its place. Those that
    /// have to be sent away before it are.
    pub fn take_applied_pending(&mut self, now: Moment) -> (r: Option<AppliedPending>)
        requires
            old(self).wf(),
        ensures
            final(self).wf(),
            final(self)@ == old(self)@.applied_first(0, now).0,
            match r {
                Some(a) => old(self)@.applied_first(0, now).1 == Some(a@) && a.addresses.wf(),
                None => old(self)@.applied_first(0, now).1 is None,
            },
    {
        let ghost before = self@;
        let mut i: usize = 0;
        while i < self.pending.len()
            invariant
                i <= self.pending@.len(),
                self.wf(),
                before == old(self)@,
                self@.applied_first(i as int, now) == before.applied_first(0, now),
            decreases self.pending@.len() - i,
        {
            proof {
                assert(self@.pending[i as int] == self.pending@[i as int]@);
                self@.lemma_applied_wf(i as int);
            }
            if now.reached(&self.pending[i].replace) {
                let r = self.apply_pending(i);
                if r.is_some() {
                    return r;
                }
            } else {
                i = i + 1;
            }
        }
        None
    }

    /// Shows a bucket.
    fn show_bucket(&self, b: u32) -> (r: KBucketRef)
        requires
            self.wf(),
            b < 256,
        ensures
            shows_bucket(r, self@, b as nat),
    {
        let ghost f = in_bucket(self@.local_key(), b as nat);
        let mut entries: Vec<EntryView> = Vec::new();
        let n: usize = self.nodes.len();
        let mut i: usize = 0;
        proof {
            reveal(Seq::filter);
            assert(entry_views(entries@) =~= self@.nodes.take(0).filter(f));
        }
        while i < n
            invariant
                n == self.nodes@.len(),
                i <= n,
                self.wf(),
                f == in_bucket(self@.local_key(), b as nat),
                entry_views(entries@) == self@.nodes.take(i as int).filter(f),
            decreases n - i,
        {
            proof {
                assert(self@.nodes[i as int] == self.nodes@[i as int]@);
                assert(self.nodes@[i as int].wf());
                assert(self@.nodes.take(i + 1) =~= self@.nodes.take(i as int).push(
                    self@.nodes[i as int],
                ));
                lemma_filter_push(self@.nodes.take(i as int), self@.nodes[i as int], f);
            }
            let here = match self.bucket_index(&self.nodes[i].key) {
                Some(c) => c == b,
                None => false,
            };
            if here {
                let ghost shown = entries@;
                entries.push(self.show_node(i));
                assert(entry_views(entries@) =~= entry_views(shown).push(self@.nodes[i as int]));
            }
            i = i + 1;
        }
        assert(self@.nodes.take(n as int) =~= self@.nodes);
        KBucketRef { index: b, range: bucket_range(b), entries }
    }

    /// Shows the bucket of a key, or `None` if it is the local key.
    pub fn bucket(&self, key: &KeyBytes) -> (r: Option<KBucketRef>)
        requires
            self.wf(),
        ensures
            shows_bucket_of(r, self@, *key),
    {
        match self.bucket_index(key) {
            Some(b) => Some(self.show_bucket(b)),
            None => None,
        }
    }

    /// Shows the buckets that are not empty, from the closest to the farthest.
    pub fn buckets(&self) -> (r: Vec<KBucketRef>)
        requires
            self.wf(),
        ensures
            shows_buckets(r@, self@),
    {
        let mut r: Vec<KBucketRef> = Vec::new();
        let mut b: u32 = 0;
        while b < 256
            invariant
                b <= 256,
                self.wf(),
                forall|i: int|
                    0 <= i < r@.len() ==> (#[trigger] r@[i]).index < b && shows_bucket(
                        r@[i],
                        self@,
                        r@[i].index as nat,
                    ) && r@[i].entries@.len() > 0,
                forall|i: int, j: int|
                    0 <= i < j < r@.len() ==> (#[trigger] r@[i]).index < (#[trigger] r@[j]).index,
                forall|c: nat|
                    c < b && (#[trigger] self@.bucket_nodes(c)).len() > 0 ==> exists|i: int|
                        0 <= i < r@.len() && (#[trigger] r@[i]).index == c,
            decreases 256 - b,
        {
            let bucket = self.show_bucket(b);
            assert(entry_views(bucket.entries@).len() == bucket.entries@.len());
            let ghost shown = r@;
            if bucket.entries.len() > 0 {
                r.push(bucket);
                assert(r@[shown.len() as int].index == b);
            }
            proof {
                assert forall|c: nat|
                    c < b + 1 && (#[trigger] self@.bucket_nodes(c)).len() > 0 implies exists|i: int|

                    0 <= i < r@.len() && (#[trigger] r@[i]).index == c by {
                    if c < b {
                        let i = choose|i: int|
                            0 <= i < shown.len() && (#[trigger] shown[i]).index == c;
                        assert(r@[i].index == c);
                    }
                }
            }
            b = b + 1;
        }
        r
    }

    /// The first bucket with a peer in it.
    pub fn first_bucket(&self) -> (r: Option<u32>)
        requires
            self.wf(),
        ensures
            r is None <==> self@.nodes.len() == 0,
            r matches Some(b) ==> b < 256 && self@.first_bucket(b as nat),
    {
        let mut b: u32 = 0;
        while b < 256
            invariant
                b <= 256,
                self.wf(),
                forall|c: nat| c < b ==> (#[trigger] self@.bucket_nodes(c)).len() == 0,
            decreases 256 - b,
        {
            if self.bucket_len(b) > 0 {
                proof {
                    if self@.nodes.len() == 0 {
                        self@.nodes.lemma_filter_len(in_bucket(self@.local_key(), b as nat));
                    }
                }
                return Some(b);
            }
            b = b + 1;
        }
        if self.nodes.len() > 0 {
            proof {
                assert(self@.nodes[0] == self.nodes@[0]@);
                assert(self.nodes@[0].wf());
            }
            let c: u32 = match self.bucket_index(&self.nodes[0].key) {
                Some(c) => c,
                None => 0,
            };
            proof {
                lemma_filter_some(self@.nodes, 0, in_bucket(self@.local_key(), c as nat));
                assert(self@.bucket_nodes(c as nat).len() == 0);
            }
        }
        None
    }
}

} // verus!
