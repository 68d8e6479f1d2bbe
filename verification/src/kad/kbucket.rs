//! The routing table.
//!
//! Peers are filed in buckets by the highest bit in which their key differs from the local
//! key. A bucket holds a limited number of peers. When it is full, a connected peer can wait
//! for the place of the peer that has been disconnected longest.

use libp2p_core::Multiaddr;
use libp2p_identity::PeerId;
use vstd::prelude::*;

use crate::kad::addresses::Addresses;
use crate::kad::config::KBucketConfig;
use crate::kad::key::key_of_peer;
use crate::kad::key::Distance;
use crate::kad::key::KeyBytes;
use crate::kad::order::by_distance;
use crate::time::Duration;
use crate::time::Moment;

verus! {

/// Whether a peer of the routing table is connected.
#[derive(Clone, Copy, Debug, PartialEq, Eq, Structural)]
pub enum NodeStatus {
    /// The peer is connected.
    Connected,
    /// The peer is not connected.
    Disconnected,
}

/// A peer of the routing table.
#[derive(Debug)]
pub struct Node {
    /// The peer.
    pub peer: PeerId,
    /// The key of the peer.
    pub key: KeyBytes,
    /// The addresses of the peer.
    pub addresses: Addresses,
    /// Whether the peer is connected.
    pub status: NodeStatus,
}

/// A peer that waits for a place in its bucket.
#[derive(Debug)]
pub struct PendingNode {
    /// The peer.
    pub node: Node,
    /// When it may take the place of another.
    pub replace: Moment,
}

/// The routing table.
#[derive(Debug)]
pub struct KBucketsTable {
    /// The local peer.
    pub local_peer: PeerId,
    /// The key of the local peer.
    pub local_key: KeyBytes,
    /// The configuration.
    pub config: KBucketConfig,
    /// The peers, each behind those of its bucket that were inserted or changed their status
    /// before it.
    pub nodes: Vec<Node>,
    /// The peers that wait for a place.
    pub pending: Vec<PendingNode>,
}

/// What a peer of the routing table is.
pub struct NodeView {
    /// The peer.
    pub peer: PeerId,
    /// The addresses of the peer.
    pub addrs: Seq<Multiaddr>,
    /// Whether the peer is connected.
    pub status: NodeStatus,
}

/// What a waiting peer is.
pub struct PendingView {
    /// The peer.
    pub node: NodeView,
    /// When it may take the place of another.
    pub replace: Moment,
}

/// What the routing table is.
pub struct TableView {
    /// The local peer.
    pub local: PeerId,
    /// The number of peers that a bucket can hold.
    pub size: usize,
    /// The time that a peer has to wait.
    pub timeout: Duration,
    /// The peers.
    pub nodes: Seq<NodeView>,
    /// The peers that wait for a place.
    pub pending: Seq<PendingView>,
}

/// Where a key stands in the routing table.
pub enum Place {
    /// It is the local key.
    Local,
    /// It is the key of a peer.
    Present(int),
    /// It is the key of a waiting peer.
    Pending(int),
    /// It is another key.
    Absent,
}

/// Where a key other than the local one stands in the routing table.
#[derive(Debug)]
pub enum Entry {
    /// It is the key of the peer at this position.
    Present(usize),
    /// It is the key of the waiting peer at this position.
    Pending(usize),
    /// It is another key.
    Absent,
}

/// What became of a peer that was to be inserted.
#[derive(Debug)]
pub enum InsertResult {
    /// It was inserted.
    Inserted,
    /// It waits for the place of the given peer.
    Pending {
        /// The peer that has been disconnected longest.
        disconnected: PeerId,
    },
    /// There is no place for it.
    Full,
}

/// A peer that was removed from the routing table, or is shown from it.
#[derive(Debug)]
pub struct EntryView {
    /// The peer.
    pub peer: PeerId,
    /// Its addresses.
    pub addresses: Addresses,
    /// Whether it is connected.
    pub status: NodeStatus,
}

/// A waiting peer that got its place.
#[derive(Debug)]
pub struct AppliedPending {
    /// The peer.
    pub peer: PeerId,
    /// Its addresses.
    pub addresses: Addresses,
    /// Whether it is connected.
    pub status: NodeStatus,
    /// The peer that had the place before.
    pub evicted: Option<PeerId>,
}

/// A bucket of the routing table.
#[derive(Debug)]
pub struct KBucketRef {
    /// The position of the bucket.
    pub index: u32,
    /// The smallest and the largest distance to the local key in the bucket.
    pub range: (Distance, Distance),
    /// The peers of the bucket.
    pub entries: Vec<EntryView>,
}

impl View for EntryView {
    type V = NodeView;

    open spec fn view(&self) -> NodeView {
        NodeView { peer: self.peer, addrs: self.addresses@, status: self.status }
    }
}

impl View for Node {
    type V = NodeView;

    open spec fn view(&self) -> NodeView {
        NodeView { peer: self.peer, addrs: self.addresses@, status: self.status }
    }
}

impl Node {
    /// Whether the key is that of the peer, and there is an address.
    pub open spec fn wf(&self) -> bool {
        self.key == key_of_peer(self.peer) && self.addresses.wf()
    }
}

impl View for PendingNode {
    type V = PendingView;

    open spec fn view(&self) -> PendingView {
        PendingView { node: self.node@, replace: self.replace }
    }
}

/// What the peers of a list are.
pub open spec fn node_views(nodes: Seq<Node>) -> Seq<NodeView> {
    Seq::new(nodes.len(), |i: int| nodes[i]@)
}

/// What the waiting peers of a list are.
pub open spec fn pending_views(pending: Seq<PendingNode>) -> Seq<PendingView> {
    Seq::new(pending.len(), |i: int| pending[i]@)
}

/// What the shown peers of a list are.
pub open spec fn entry_views(entries: Seq<EntryView>) -> Seq<NodeView> {
    Seq::new(entries.len(), |i: int| entries[i]@)
}

/// The peers of a list of nodes.
pub open spec fn peers_of(nodes: Seq<NodeView>) -> Seq<PeerId> {
    Seq::new(nodes.len(), |i: int| nodes[i].peer)
}

impl NodeView {
    /// The key of the peer.
    pub open spec fn key(self) -> KeyBytes {
        key_of_peer(self.peer)
    }
}

/// The bucket of a key.
pub open spec fn bucket_of(local: KeyBytes, key: KeyBytes) -> nat {
    local.spec_distance(key).spec_ilog2()
}

/// Tells the peers of a bucket.
pub open spec fn in_bucket(local: KeyBytes, b: nat) -> spec_fn(NodeView) -> bool {
    |n: NodeView| bucket_of(local, n.key()) == b
}

/// Tells the waiting peers that do not wait for a place in a bucket.
pub open spec fn awaits_other(local: KeyBytes, b: nat) -> spec_fn(PendingView) -> bool {
    |p: PendingView| bucket_of(local, p.node.key()) != b
}

/// Tells the peers that are not farther from `target` than the local peer.
pub open spec fn between(local: KeyBytes, target: KeyBytes) -> spec_fn(NodeView) -> bool {
    |n: NodeView| n.key().spec_distance(target).le(local.spec_distance(target))
}

/// Whether no two peers have the same key.
pub open spec fn keys_differ(nodes: Seq<NodeView>) -> bool {
    forall|i: int, j: int|
        0 <= i < j < nodes.len() ==> (#[trigger] nodes[i]).key() != (#[trigger] nodes[j]).key()
}

/// Whether some peer of a set has the given key.
pub open spec fn has_peer(peers: Set<PeerId>, key: KeyBytes) -> bool {
    exists|p: PeerId| #[trigger] peers.contains(p) && key_of_peer(p) == key
}

/// A table without peers.
pub open spec fn empty_table(local: PeerId, config: KBucketConfig) -> TableView {
    TableView {
        local,
        size: config.bucket_size@,
        timeout: config.pending_timeout,
        nodes: Seq::empty(),
        pending: Seq::empty(),
    }
}

impl TableView {
    /// The key of the local peer.
    pub open spec fn local_key(self) -> KeyBytes {
        key_of_peer(self.local)
    }

    /// The bucket of a key.
    pub open spec fn bucket(self, key: KeyBytes) -> nat {
        bucket_of(self.local_key(), key)
    }

    /// Whether `key` is that of the peer at `i`.
    pub open spec fn node_is(self, i: int, key: KeyBytes) -> bool {
        0 <= i < self.nodes.len() && self.nodes[i].key() == key
    }

    /// Whether `key` is that of the waiting peer at `i`.
    pub open spec fn pending_is(self, i: int, key: KeyBytes) -> bool {
        0 <= i < self.pending.len() && self.pending[i].node.key() == key
    }

    /// Where a key stands.
    pub open spec fn place(self, key: KeyBytes) -> Place {
        if key == self.local_key() {
            Place::Local
        } else if exists|i: int| self.node_is(i, key) {
            Place::Present(choose|i: int| self.node_is(i, key))
        } else if exists|i: int| self.pending_is(i, key) {
            Place::Pending(choose|i: int| self.pending_is(i, key))
        } else {
            Place::Absent
        }
    }

    /// Where the key of a peer stands.
    pub open spec fn place_of(self, peer: PeerId) -> Place {
        self.place(key_of_peer(peer))
    }

    /// The peers of a bucket.
    pub open spec fn bucket_nodes(self, b: nat) -> Seq<NodeView> {
        self.nodes.filter(in_bucket(self.local_key(), b))
    }

    /// Whether a bucket is full.
    pub open spec fn full(self, b: nat) -> bool {
        self.bucket_nodes(b).len() >= self.size
    }

    /// Whether the peer at `i` is a disconnected one of the bucket.
    pub open spec fn disconnected_at(self, b: nat, i: int) -> bool {
        &&& 0 <= i < self.nodes.len()
        &&& self.bucket(self.nodes[i].key()) == b
        &&& self.nodes[i].status == NodeStatus::Disconnected
    }

    /// Whether the peer at `i` is the one of the bucket that has been disconnected longest.
    pub open spec fn stalest_at(self, b: nat, i: int) -> bool {
        &&& self.disconnected_at(b, i)
        &&& forall|j: int| 0 <= j < i ==> !(#[trigger] self.disconnected_at(b, j))
    }

    /// Whether some peer waits for a place in the bucket.
    pub open spec fn awaited(self, b: nat) -> bool {
        exists|i: int|
            0 <= i < self.pending.len() && self.bucket((#[trigger] self.pending[i]).node.key()) == b
    }

    /// What holds of a routing table at all times: it does not hold the local peer, no peer
    /// stands in it twice, no bucket is overfull, and no two peers wait for a place in the
    /// same bucket.
    pub open spec fn wf(self) -> bool {
        &&& self.size > 0
        &&& keys_differ(self.nodes)
        &&& forall|i: int|
            0 <= i < self.nodes.len() ==> (#[trigger] self.nodes[i]).key() != self.local_key()
                && self.nodes[i].addrs.len() > 0
        &&& forall|i: int|
            0 <= i < self.pending.len() ==> (#[trigger] self.pending[i]).node.key()
                != self.local_key() && self.pending[i].node.addrs.len() > 0
        &&& forall|i: int, j: int|
            0 <= i < self.nodes.len() && 0 <= j < self.pending.len() ==> (
            #[trigger] self.nodes[i]).key() != (#[trigger] self.pending[j]).node.key()
        &&& forall|i: int, j: int|
            0 <= i < j < self.pending.len() ==> self.bucket((#[trigger] self.pending[i]).node.key())
                != self.bucket((#[trigger] self.pending[j]).node.key())
        &&& forall|b: nat| (#[trigger] self.bucket_nodes(b)).len() <= self.size
    }

    /// The table with other peers.
    pub open spec fn with_nodes(self, nodes: Seq<NodeView>) -> TableView {
        TableView { nodes, ..self }
    }

    /// The table with other waiting peers.
    pub open spec fn with_pending(self, pending: Seq<PendingView>) -> TableView {
        TableView { pending, ..self }
    }

    /// The table with other addresses of the peer at `i`.
    pub open spec fn with_node_addrs(self, i: int, addrs: Seq<Multiaddr>) -> TableView {
        self.with_nodes(self.nodes.update(i, NodeView { addrs, ..self.nodes[i] }))
    }

    /// The table with other addresses of the waiting peer at `i`.
    pub open spec fn with_pending_addrs(self, i: int, addrs: Seq<Multiaddr>) -> TableView {
        self.with_pending(
            self.pending.update(
                i,
                PendingView {
                    node: NodeView { addrs, ..self.pending[i].node },
                    ..self.pending[i]
                },
            ),
        )
    }

    /// The table with another status of the waiting peer at `i`.
    pub open spec fn with_pending_status(self, i: int, status: NodeStatus) -> TableView {
        self.with_pending(
            self.pending.update(
                i,
                PendingView {
                    node: NodeView { status, ..self.pending[i].node },
                    ..self.pending[i]
                },
            ),
        )
    }

    /// The waiting peers without those of a bucket.
    pub open spec fn not_awaiting(self, b: nat) -> Seq<PendingView> {
        self.pending.filter(awaits_other(self.local_key(), b))
    }

    /// The table with another status of the peer at `i`, which goes to the end. No peer waits
    /// any longer for the place of one that has connected again.
    pub open spec fn with_node_status(self, i: int, status: NodeStatus) -> TableView {
        let node = self.nodes[i];
        let b = self.bucket(node.key());
        let freed = status == NodeStatus::Connected && self.stalest_at(b, i);
        TableView {
            nodes: self.nodes.remove(i).push(NodeView { status, ..node }),
            pending: if freed {
                self.not_awaiting(b)
            } else {
                self.pending
            },
            ..self
        }
    }

    /// The table after a peer that is not there was to be inserted.
    pub open spec fn inserted(self, node: NodeView, now: Moment) -> TableView {
        let b = self.bucket(node.key());
        if !self.full(b) {
            self.with_nodes(self.nodes.push(node))
        } else if self.must_wait(node) {
            self.with_pending(
                self.pending.push(PendingView { node, replace: now.spec_add(self.timeout) }),
            )
        } else {
            self
        }
    }

    /// Whether a peer has to wait for a place: its bucket is full, it is connected, another
    /// one of the bucket is not, and no other peer waits.
    pub open spec fn must_wait(self, node: NodeView) -> bool {
        let b = self.bucket(node.key());
        &&& self.full(b)
        &&& node.status == NodeStatus::Connected
        &&& exists|i: int| self.disconnected_at(b, i)
        &&& !self.awaited(b)
    }

    /// What becomes of a peer that is to be inserted.
    pub open spec fn insertion(self, node: NodeView, r: InsertResult) -> bool {
        let b = self.bucket(node.key());
        match r {
            InsertResult::Inserted => !self.full(b),
            InsertResult::Pending { disconnected } => {
                &&& self.must_wait(node)
                &&& exists|i: int| #[trigger]
                    self.stalest_at(b, i) && self.nodes[i].peer == disconnected
            },
            InsertResult::Full => self.full(b) && !self.must_wait(node),
        }
    }

    /// The number of peers that are not farther from `target` than the local peer.
    pub open spec fn count_between(self, target: KeyBytes) -> nat {
        self.nodes.filter(between(self.local_key(), target)).len()
    }

    /// The peers, from the closest to `target` to the farthest.
    pub open spec fn closest_peers(self, target: KeyBytes) -> Seq<PeerId> {
        by_distance(peers_of(self.nodes), target)
    }

    /// The node of a peer.
    pub open spec fn node_of(self, peer: PeerId) -> NodeView {
        self.nodes[self.place_of(peer)->Present_0]
    }

    /// Whether every connected peer of the table has a key of one of the `connected` peers.
    pub open spec fn connected_within(self, connected: Set<PeerId>) -> bool {
        &&& forall|i: int|
            0 <= i < self.nodes.len() && (#[trigger] self.nodes[i]).status == NodeStatus::Connected
                ==> has_peer(connected, self.nodes[i].key())
        &&& forall|i: int|
            0 <= i < self.pending.len() && (#[trigger] self.pending[i]).node.status
                == NodeStatus::Connected ==> has_peer(connected, self.pending[i].node.key())
    }

    /// The waiting peer at `i` gets its place, or is sent away if every peer of its full
    /// bucket is connected.
    pub open spec fn applied(self, i: int) -> (TableView, Option<AppliedView>) {
        let node = self.pending[i].node;
        let b = self.bucket(node.key());
        let rest = self.with_pending(self.pending.remove(i));
        if !self.full(b) {
            (
                rest.with_nodes(self.nodes.push(node)),
                Some(AppliedView { inserted: node, evicted: None }),
            )
        } else if exists|k: int| self.disconnected_at(b, k) {
            let k = choose|k: int| self.stalest_at(b, k);
            (
                rest.with_nodes(self.nodes.remove(k).push(node)),
                Some(AppliedView { inserted: node, evicted: Some(self.nodes[k].peer) }),
            )
        } else {
            (rest, None)
        }
    }

    /// The first of the waiting peers, from position `from` on, that has waited long enough
    /// gets its place. Those that have to be sent away before it are.
    pub open spec fn applied_first(self, from: int, now: Moment) -> (TableView, Option<AppliedView>)
        decreases self.pending.len() - from,
    {
        if from < 0 || from >= self.pending.len() {
            (self, None)
        } else if now.nanos >= self.pending[from].replace.nanos {
            let (next, applied) = self.applied(from);
            if applied is Some || next.pending.len() >= self.pending.len() {
                (next, applied)
            } else {
                next.applied_first(from, now)
            }
        } else {
            self.applied_first(from + 1, now)
        }
    }

    /// Whether `b` is the first bucket with a peer in it.
    pub open spec fn first_bucket(self, b: nat) -> bool {
        &&& self.bucket_nodes(b).len() > 0
        &&& forall|c: nat| c < b ==> (#[trigger] self.bucket_nodes(c)).len() == 0
    }
}

/// What a waiting peer that got its place is.
pub struct AppliedView {
    /// The peer.
    pub inserted: NodeView,
    /// The peer that had the place before.
    pub evicted: Option<PeerId>,
}

impl View for AppliedPending {
    type V = AppliedView;

    open spec fn view(&self) -> AppliedView {
        AppliedView {
            inserted: NodeView {
                peer: self.peer,
                addrs: self.addresses@,
                status: self.status,
            },
            evicted: self.evicted,
        }
    }
}

/// Adding an element at the end adds it to the selected ones if it is selected.
pub proof fn lemma_filter_push<T>(s: Seq<T>, x: T, f: spec_fn(T) -> bool)
    ensures
        s.push(x).filter(f) == (if f(x) {
            s.filter(f).push(x)
        } else {
            s.filter(f)
        }),
{
    reveal(Seq::filter);
    assert(s.push(x).drop_last() =~= s);
}

/// Removing an element removes it from the selected ones if it is selected.
pub proof fn lemma_filter_remove<T>(s: Seq<T>, i: int, f: spec_fn(T) -> bool)
    requires
        0 <= i < s.len(),
    ensures
        s.remove(i).filter(f).len() == s.filter(f).len() - (if f(s[i]) {
            1int
        } else {
            0int
        }),
{
    let a = s.take(i);
    let b = s.skip(i + 1);
    assert(s.remove(i) =~= a + b);
    assert(s =~= a.push(s[i]) + b);
    Seq::filter_distributes_over_add(a, b, f);
    Seq::filter_distributes_over_add(a.push(s[i]), b, f);
    lemma_filter_push(a, s[i], f);
}

/// Replacing an element by one that is selected just as well keeps the number of selected
/// ones.
pub proof fn lemma_filter_update<T>(s: Seq<T>, i: int, x: T, f: spec_fn(T) -> bool)
    requires
        0 <= i < s.len(),
        f(x) == f(s[i]),
    ensures
        s.update(i, x).filter(f).len() == s.filter(f).len(),
{
    let a = s.take(i);
    let b = s.skip(i + 1);
    assert(s.update(i, x) =~= a.push(x) + b);
    assert(s =~= a.push(s[i]) + b);
    Seq::filter_distributes_over_add(a.push(x), b, f);
    Seq::filter_distributes_over_add(a.push(s[i]), b, f);
    lemma_filter_push(a, s[i], f);
    lemma_filter_push(a, x, f);
}

/// A selected element makes the selection longer than nothing.
pub proof fn lemma_filter_some<T>(s: Seq<T>, i: int, f: spec_fn(T) -> bool)
    requires
        0 <= i < s.len(),
        f(s[i]),
    ensures
        s.filter(f).len() > 0,
{
    lemma_filter_remove(s, i, f);
}

/// A selected element is an element, and is selected.
pub proof fn lemma_filter_member<T>(s: Seq<T>, f: spec_fn(T) -> bool, j: int)
    requires
        0 <= j < s.filter(f).len(),
    ensures
        s.contains(s.filter(f)[j]),
        f(s.filter(f)[j]),
    decreases s.len(),
{
    reveal(Seq::filter);
    if s.len() > 0 {
        let front = s.drop_last();
        assert(s[s.len() - 1] == s.last());
        if j < front.filter(f).len() {
            lemma_filter_member(front, f, j);
            let k = front.index_of(front.filter(f)[j]);
            assert(s[k] == s.filter(f)[j]);
        }
    }
}

impl TableView {
    /// A key of a peer is found where the peer stands.
    pub proof fn lemma_present(self, i: int)
        requires
            self.wf(),
            0 <= i < self.nodes.len(),
        ensures
            self.place(self.nodes[i].key()) == Place::Present(i),
    {
        let key = self.nodes[i].key();
        assert(self.node_is(i, key));
        let j = choose|j: int| self.node_is(j, key);
        assert(self.node_is(j, key));
        if j < i {
            assert(self.nodes[j].key() != self.nodes[i].key());
        } else if i < j {
            assert(self.nodes[i].key() != self.nodes[j].key());
        }
    }

    /// A key of a waiting peer is found where the peer stands.
    pub proof fn lemma_waiting(self, i: int)
        requires
            self.wf(),
            0 <= i < self.pending.len(),
        ensures
            self.place(self.pending[i].node.key()) == Place::Pending(i),
    {
        let key = self.pending[i].node.key();
        assert(self.pending_is(i, key));
        let j = choose|j: int| self.pending_is(j, key);
        assert(self.pending_is(j, key));
        if j < i {
            assert(self.bucket(self.pending[j].node.key()) != self.bucket(
                self.pending[i].node.key(),
            ));
        } else if i < j {
            assert(self.bucket(self.pending[i].node.key()) != self.bucket(
                self.pending[j].node.key(),
            ));
        }
        assert(!exists|k: int| self.node_is(k, key)) by {
            if exists|k: int| self.node_is(k, key) {
                let k = choose|k: int| self.node_is(k, key);
                assert(self.nodes[k].key() != self.pending[i].node.key());
            }
        }
    }

    /// What it means that a key is found.
    pub proof fn lemma_place(self, key: KeyBytes)
        ensures
            match self.place(key) {
                Place::Local => key == self.local_key(),
                Place::Present(i) => self.node_is(i, key) && key != self.local_key(),
                Place::Pending(i) => self.pending_is(i, key) && key != self.local_key(),
                Place::Absent => key != self.local_key() && (forall|i: int|
                    !self.node_is(i, key)) && (forall|i: int| !self.pending_is(i, key)),
            },
    {
    }

    /// A peer can be added to a bucket that is not full.
    pub proof fn lemma_push_wf(self, node: NodeView)
        requires
            self.wf(),
            self.place(node.key()) is Absent,
            node.addrs.len() > 0,
            !self.full(self.bucket(node.key())),
        ensures
            self.with_nodes(self.nodes.push(node)).wf(),
    {
        self.lemma_place(node.key());
        let t = self.with_nodes(self.nodes.push(node));
        assert forall|b: nat| (#[trigger] t.bucket_nodes(b)).len() <= t.size by {
            lemma_filter_push(self.nodes, node, in_bucket(self.local_key(), b));
            assert(self.bucket_nodes(b).len() <= self.size);
        }
        assert forall|i: int, j: int| 0 <= i < j < t.nodes.len() implies (#[trigger] t.nodes[i]).key()
            != (#[trigger] t.nodes[j]).key() by {
            assert(!self.node_is(i, node.key()));
        }
        assert forall|i: int, j: int|
            0 <= i < t.nodes.len() && 0 <= j < t.pending.len() implies (#[trigger] t.nodes[i]).key()
            != (#[trigger] t.pending[j]).node.key() by {
            assert(!self.pending_is(j, node.key()));
        }
    }

    /// A peer can be removed.
    pub proof fn lemma_remove_wf(self, i: int)
        requires
            self.wf(),
            0 <= i < self.nodes.len(),
        ensures
            self.with_nodes(self.nodes.remove(i)).wf(),
            self.with_nodes(self.nodes.remove(i)).place(self.nodes[i].key()) is Absent,
            !self.with_nodes(self.nodes.remove(i)).full(self.bucket(self.nodes[i].key())),
    {
        let t = self.with_nodes(self.nodes.remove(i));
        let key = self.nodes[i].key();
        assert forall|b: nat| (#[trigger] t.bucket_nodes(b)).len() <= t.size by {
            lemma_filter_remove(self.nodes, i, in_bucket(self.local_key(), b));
            assert(self.bucket_nodes(b).len() <= self.size);
        }
        lemma_filter_remove(self.nodes, i, in_bucket(self.local_key(), self.bucket(key)));
        assert(self.bucket_nodes(self.bucket(key)).len() <= self.size);
        assert forall|j: int| 0 <= j < t.nodes.len() implies t.nodes[j] == self.nodes[if j < i {
            j
        } else {
            j + 1
        }] by {}
        assert forall|j: int| !t.node_is(j, key) by {
            if t.node_is(j, key) {
                let j0 = if j < i {
                    j
                } else {
                    j + 1
                };
                assert(t.nodes[j] == self.nodes[j0]);
                if j0 < i {
                    assert(self.nodes[j0].key() != self.nodes[i].key());
                } else {
                    assert(self.nodes[i].key() != self.nodes[j0].key());
                }
            }
        }
        assert forall|j: int| !t.pending_is(j, key) by {
            if t.pending_is(j, key) {
                assert(self.nodes[i].key() != self.pending[j].node.key());
            }
        }
        assert forall|a: int, b: int| 0 <= a < b < t.nodes.len() implies (#[trigger] t.nodes[a]).key()
            != (#[trigger] t.nodes[b]).key() by {
            let a0 = if a < i {
                a
            } else {
                a + 1
            };
            let b0 = if b < i {
                b
            } else {
                b + 1
            };
            assert(self.nodes[a0].key() != self.nodes[b0].key());
        }
        assert forall|a: int, b: int|
            0 <= a < t.nodes.len() && 0 <= b < t.pending.len() implies (#[trigger] t.nodes[a]).key()
            != (#[trigger] t.pending[b]).node.key() by {
            let a0 = if a < i {
                a
            } else {
                a + 1
            };
            assert(self.nodes[a0].key() != self.pending[b].node.key());
        }
    }

    /// A peer can get other addresses.
    pub proof fn lemma_node_addrs_wf(self, i: int, addrs: Seq<Multiaddr>)
        requires
            self.wf(),
            0 <= i < self.nodes.len(),
            addrs.len() > 0,
        ensures
            self.with_node_addrs(i, addrs).wf(),
    {
        let t = self.with_node_addrs(i, addrs);
        assert forall|b: nat| (#[trigger] t.bucket_nodes(b)).len() <= t.size by {
            lemma_filter_update(
                self.nodes,
                i,
                NodeView { addrs, ..self.nodes[i] },
                in_bucket(self.local_key(), b),
            );
            assert(self.bucket_nodes(b).len() <= self.size);
        }
        assert forall|j: int| 0 <= j < t.nodes.len() implies (#[trigger] t.nodes[j]).key()
            == self.nodes[j].key() by {}
    }

    /// A waiting peer can get other addresses or another status.
    pub proof fn lemma_pending_update_wf(self, i: int, node: NodeView)
        requires
            self.wf(),
            0 <= i < self.pending.len(),
            node.peer == self.pending[i].node.peer,
            node.addrs.len() > 0,
        ensures
            self.with_pending(
                self.pending.update(i, PendingView { node, ..self.pending[i] }),
            ).wf(),
    {
        let t = self.with_pending(self.pending.update(i, PendingView { node, ..self.pending[i] }));
        assert forall|b: nat| (#[trigger] t.bucket_nodes(b)).len() <= t.size by {
            assert(self.bucket_nodes(b).len() <= self.size);
        }
        assert forall|j: int| 0 <= j < t.pending.len() implies (#[trigger] t.pending[j]).node.key()
            == self.pending[j].node.key() by {}
    }

    /// A waiting peer can be removed.
    pub proof fn lemma_pending_remove_wf(self, i: int)
        requires
            self.wf(),
            0 <= i < self.pending.len(),
        ensures
            self.with_pending(self.pending.remove(i)).wf(),
            self.with_pending(self.pending.remove(i)).place(self.pending[i].node.key()) is Absent,
    {
        let t = self.with_pending(self.pending.remove(i));
        let key = self.pending[i].node.key();
        assert forall|b: nat| (#[trigger] t.bucket_nodes(b)).len() <= t.size by {
            assert(self.bucket_nodes(b).len() <= self.size);
        }
        assert forall|j: int| 0 <= j < t.pending.len() implies (#[trigger] t.pending[j])
            == self.pending[if j < i {
            j
        } else {
            j + 1
        }] by {}
        assert forall|a: int, b: int| 0 <= a < b < t.pending.len() implies self.bucket(
            (#[trigger] t.pending[a]).node.key(),
        ) != self.bucket((#[trigger] t.pending[b]).node.key()) by {
            let a0 = if a < i {
                a
            } else {
                a + 1
            };
            let b0 = if b < i {
                b
            } else {
                b + 1
            };
            assert(self.bucket(self.pending[a0].node.key()) != self.bucket(
                self.pending[b0].node.key(),
            ));
        }
        assert forall|j: int| !t.node_is(j, key) by {
            if t.node_is(j, key) {
                assert(self.nodes[j].key() != self.pending[i].node.key());
            }
        }
        assert forall|j: int| !t.pending_is(j, key) by {
            if t.pending_is(j, key) {
                let j0 = if j < i {
                    j
                } else {
                    j + 1
                };
                assert(t.pending[j] == self.pending[j0]);
                if j0 < i {
                    assert(self.bucket(self.pending[j0].node.key()) != self.bucket(
                        self.pending[i].node.key(),
                    ));
                } else {
                    assert(self.bucket(self.pending[i].node.key()) != self.bucket(
                        self.pending[j0].node.key(),
                    ));
                }
            }
        }
    }

    /// A peer can be made to wait for a place in a bucket that no other waits for.
    pub proof fn lemma_pending_push_wf(self, p: PendingView)
        requires
            self.wf(),
            self.place(p.node.key()) is Absent,
            p.node.addrs.len() > 0,
            !self.awaited(self.bucket(p.node.key())),
        ensures
            self.with_pending(self.pending.push(p)).wf(),
    {
        self.lemma_place(p.node.key());
        let t = self.with_pending(self.pending.push(p));
        assert forall|b: nat| (#[trigger] t.bucket_nodes(b)).len() <= t.size by {
            assert(self.bucket_nodes(b).len() <= self.size);
        }
        assert forall|i: int, j: int|
            0 <= i < t.nodes.len() && 0 <= j < t.pending.len() implies (#[trigger] t.nodes[i]).key()
            != (#[trigger] t.pending[j]).node.key() by {
            assert(!self.node_is(i, p.node.key()));
        }
    }

    /// Fewer waiting peers are no harm.
    pub proof fn lemma_not_awaiting_wf(self, b: nat)
        requires
            self.wf(),
        ensures
            self.with_pending(self.not_awaiting(b)).wf(),
        decreases self.pending.len(),
    {
        reveal(Seq::filter);
        let t = self.with_pending(self.not_awaiting(b));
        if self.pending.len() > 0 {
            let n = self.pending.len() - 1;
            let front = self.with_pending(self.pending.drop_last());
            assert(self.pending.drop_last() =~= self.pending.remove(n));
            self.lemma_pending_remove_wf(n);
            front.lemma_not_awaiting_wf(b);
            let last = self.pending[n];
            let kept = front.not_awaiting(b);
            let ft = front.with_pending(kept);
            assert(self.not_awaiting(b) == (if self.bucket(last.node.key()) != b {
                kept.push(last)
            } else {
                kept
            }));
            if self.bucket(last.node.key()) != b {
                assert(ft.place(last.node.key()) is Absent) by {
                    front.lemma_place(last.node.key());
                    if exists|j: int| ft.pending_is(j, last.node.key()) {
                        let j = choose|j: int| ft.pending_is(j, last.node.key());
                        let f = awaits_other(self.local_key(), b);
                        lemma_filter_member(front.pending, f, j);
                        assert(front.pending.contains(kept[j]));
                        let k = front.pending.index_of(kept[j]);
                        assert(front.pending_is(k, last.node.key()));
                    }
                    if exists|j: int| ft.node_is(j, last.node.key()) {
                        let j = choose|j: int| ft.node_is(j, last.node.key());
                        assert(front.node_is(j, last.node.key()));
                    }
                }
                assert(!ft.awaited(ft.bucket(last.node.key()))) by {
                    if ft.awaited(ft.bucket(last.node.key())) {
                        let j = choose|j: int|
                            0 <= j < kept.len() && ft.bucket((#[trigger] kept[j]).node.key())
                                == ft.bucket(last.node.key());
                        let f = awaits_other(self.local_key(), b);
                        lemma_filter_member(front.pending, f, j);
                        assert(front.pending.contains(kept[j]));
                        let k = front.pending.index_of(kept[j]);
                        assert(self.bucket(self.pending[k].node.key()) != self.bucket(
                            self.pending[n].node.key(),
                        ));
                    }
                }
                ft.lemma_pending_push_wf(last);
                assert(ft.with_pending(kept.push(last)) == t);
            } else {
                assert(ft == t);
            }
        } else {
            assert(self.not_awaiting(b) =~= self.pending);
        }
    }

    /// A peer can change its status.
    pub proof fn lemma_node_status_wf(self, i: int, status: NodeStatus)
        requires
            self.wf(),
            0 <= i < self.nodes.len(),
        ensures
            self.with_node_status(i, status).wf(),
    {
        let node = NodeView { status, ..self.nodes[i] };
        let b = self.bucket(node.key());
        self.lemma_remove_wf(i);
        let t = self.with_nodes(self.nodes.remove(i));
        t.lemma_push_wf(node);
        let t2 = t.with_nodes(t.nodes.push(node));
        t2.lemma_not_awaiting_wf(b);
        assert(t2.with_pending(t2.pending) == t2);
    }

    /// A peer can be inserted.
    pub proof fn lemma_inserted_wf(self, node: NodeView, now: Moment)
        requires
            self.wf(),
            self.place(node.key()) is Absent,
            node.addrs.len() > 0,
        ensures
            self.inserted(node, now).wf(),
    {
        let b = self.bucket(node.key());
        if !self.full(b) {
            self.lemma_push_wf(node);
        } else if self.must_wait(node) {
            self.lemma_pending_push_wf(
                PendingView { node, replace: now.spec_add(self.timeout) },
            );
        }
    }

    /// In a bucket with a disconnected peer, one has been disconnected longest.
    pub proof fn lemma_stalest(self, b: nat, i: int) -> (k: int)
        requires
            self.disconnected_at(b, i),
        ensures
            self.stalest_at(b, k),
        decreases i,
    {
        if exists|j: int| 0 <= j < i && self.disconnected_at(b, j) {
            let j = choose|j: int| 0 <= j < i && self.disconnected_at(b, j);
            self.lemma_stalest(b, j)
        } else {
            i
        }
    }

    /// Only one peer has been disconnected longest.
    pub proof fn lemma_stalest_unique(self, b: nat, i: int, j: int)
        requires
            self.stalest_at(b, i),
            self.stalest_at(b, j),
        ensures
            i == j,
    {
        if i < j {
            assert(!self.disconnected_at(b, i));
        } else if j < i {
            assert(!self.disconnected_at(b, j));
        }
    }

    /// A waiting peer can get its place.
    pub proof fn lemma_applied_wf(self, i: int)
        requires
            self.wf(),
            0 <= i < self.pending.len(),
        ensures
            self.applied(i).0.wf(),
            self.applied(i).0.pending == self.pending.remove(i),
    {
        let node = self.pending[i].node;
        let b = self.bucket(node.key());
        let rest = self.with_pending(self.pending.remove(i));
        self.lemma_pending_remove_wf(i);
        if !self.full(b) {
            assert(!rest.full(b));
            rest.lemma_push_wf(node);
        } else if exists|k: int| self.disconnected_at(b, k) {
            let k0 = choose|k: int| self.disconnected_at(b, k);
            let k1 = self.lemma_stalest(b, k0);
            let k = choose|k: int| self.stalest_at(b, k);
            assert(self.stalest_at(b, k));
            rest.lemma_remove_wf(k);
            let less = rest.with_nodes(rest.nodes.remove(k));
            assert(less.place(node.key()) is Absent) by {
                rest.lemma_place(node.key());
                if exists|j: int| less.node_is(j, node.key()) {
                    let j = choose|j: int| less.node_is(j, node.key());
                    let j0 = if j < k {
                        j
                    } else {
                        j + 1
                    };
                    assert(less.nodes[j] == rest.nodes[j0]);
                    assert(rest.node_is(j0, node.key()));
                }
                if exists|j: int| less.pending_is(j, node.key()) {
                    let j = choose|j: int| less.pending_is(j, node.key());
                    assert(rest.pending_is(j, node.key()));
                }
            }
            less.lemma_push_wf(node);
        }
    }
}

} // verus!
