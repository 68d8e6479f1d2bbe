//! How the behaviour answers requests, and takes answers.

use libp2p_core::Multiaddr;
use libp2p_identity::PeerId;
use vstd::prelude::*;

use crate::assoc::entries_insert;
use crate::assoc::has_key;
use crate::assoc::key_index;
use crate::assoc::Ident;
use crate::kad::behaviour::Behaviour;
use crate::kad::kbucket::lemma_filter_push;
use crate::kad::kbucket::Entry;
use crate::kad::kbucket::Place;
use crate::kad::kbucket::TableView;
use crate::kad::key::KeyBytes;
use crate::kad::order::at_most;
use crate::kad::protocol::kad_peers;
use crate::kad::protocol::ConnectionType;
use crate::kad::protocol::KadPeer;
use crate::kad::protocol::KadPeerView;
use crate::kad::protocol::QueryId;
use crate::kad::query::addr_views;
use crate::kad::query::answered;
use crate::kad::query::lemma_addr_views_insert;
use crate::kad::query::lemma_pool_put;
use crate::kad::query::Query;
use crate::kad::query::QueryPeers;
use crate::kad::query::QueryPool;
use crate::kad::record::Key;
use crate::kad::record::ProviderRecord;
use crate::kad::record::RecordStore;
use crate::net::contains_peer;
use crate::net::external_addrs;
use crate::net::external_list;
use crate::net::listen_addrs;
use crate::net::listen_list;

verus! {

/// Whether `after` is `before` once the query with the given number, if there is one, went
/// through a change.
pub open spec fn one_query(
    before: QueryPool,
    after: QueryPool,
    id: QueryId,
    change: spec_fn(Query, Query) -> bool,
) -> bool {
    let entries = before.queries.entries@;
    if has_key(entries, id) {
        let q = entries[key_index(entries, id)].1;
        let q2 = after.queries.entries@[key_index(entries, id)].1;
        &&& after == (QueryPool { queries: after.queries, ..before })
        &&& after.queries.entries@ == entries_insert(entries, id, q2)
        &&& change(q, q2)
    } else {
        after == before
    }
}

/// The peers of a list other than the local one.
pub open spec fn others(list: Seq<KadPeerView>, local: PeerId) -> Seq<KadPeerView> {
    list.filter(|p: KadPeerView| p.peer != local)
}

/// The addresses that are known once those of a list of peers were learned.
pub open spec fn learned(known: Seq<(PeerId, Seq<Multiaddr>)>, list: Seq<KadPeerView>) -> Seq<
    (PeerId, Seq<Multiaddr>),
>
    decreases list.len(),
{
    if list.len() == 0 {
        known
    } else {
        entries_insert(learned(known, list.drop_last()), list.last().peer, list.last().addrs)
    }
}

/// The peers that a list names.
pub open spec fn named(list: Seq<KadPeerView>) -> Seq<PeerId> {
    Seq::new(list.len(), |i: int| list[i].peer)
}

/// What an answer that names peers changes in a query: their addresses are learned, and they
/// become candidates.
pub open spec fn peers_named(source: PeerId, list: Seq<KadPeerView>) -> spec_fn(
    Query,
    Query,
) -> bool {
    |before: Query, after: Query|
        {
            &&& answered(
                Query {
                    peers: QueryPeers { addresses: after.peers.addresses, ..before.peers },
                    ..before
                },
                after,
                source,
                named(list),
            )
            &&& addr_views(after.peers.addresses.entries@) == learned(
                addr_views(before.peers.addresses.entries@),
                list,
            )
        }
}

/// What is said of the provider of a record, if anything: a provider without addresses is
/// the local one, or is looked up in the routing table.
pub open spec fn provider_answer(
    record: ProviderRecord,
    source: PeerId,
    t: TableView,
    connected: Set<PeerId>,
    own_addrs: Seq<Multiaddr>,
) -> Option<KadPeerView> {
    let connection = if connected.contains(record.provider) {
        ConnectionType::Connected
    } else {
        ConnectionType::NotConnected
    };
    let peer = record.provider;
    if peer == source {
        None
    } else if record.addresses@.len() > 0 {
        Some(KadPeerView { peer, addrs: record.addresses@, connection })
    } else if peer == t.local {
        Some(KadPeerView { peer, addrs: own_addrs, connection })
    } else {
        match t.place_of(peer) {
            Place::Present(i) => Some(KadPeerView { peer, addrs: t.nodes[i].addrs, connection }),
            Place::Pending(i) => Some(
                KadPeerView { peer, addrs: t.pending[i].node.addrs, connection },
            ),
            _ => None,
        }
    }
}

/// What is said of the providers of a list of records.
pub open spec fn provider_answers(
    records: Seq<ProviderRecord>,
    source: PeerId,
    t: TableView,
    connected: Set<PeerId>,
    own_addrs: Seq<Multiaddr>,
) -> Seq<KadPeerView>
    decreases records.len(),
{
    if records.len() == 0 {
        Seq::empty()
    } else {
        let before = provider_answers(records.drop_last(), source, t, connected, own_addrs);
        match provider_answer(records.last(), source, t, connected, own_addrs) {
            Some(p) => before.push(p),
            None => before,
        }
    }
}

/// Whether a list holds the addresses of the local node: those that it listens on, each once,
/// and then the external ones.
pub open spec fn own_addresses<S>(b: Behaviour<S>, list: Seq<Multiaddr>) -> bool {
    exists|listen: Seq<Multiaddr>| #[trigger]
        lists_set(listen, listen_addrs(b.listen_addresses)) && list == listen + external_addrs(
            b.external_addresses,
        )
}

/// Whether a list holds the elements of a set, each once.
pub open spec fn lists_set(list: Seq<Multiaddr>, set: Set<Multiaddr>) -> bool {
    list.no_duplicates() && list.to_set() == set
}

/// What is said of the providers of a key, when the local store returned `records` for it.
pub open spec fn providers_told<S>(
    b: Behaviour<S>,
    records: Seq<ProviderRecord>,
    source: PeerId,
    own_addrs: Seq<Multiaddr>,
) -> Seq<KadPeerView> {
    at_most(
        provider_answers(records, source, b.kbuckets@, b.connected_peers@, own_addrs),
        b.queries.config.replication_factor@ as nat,
    )
}

/// Answers come one after the other.
proof fn lemma_provider_answers_prefix(
    records: Seq<ProviderRecord>,
    k: int,
    source: PeerId,
    t: TableView,
    connected: Set<PeerId>,
    own_addrs: Seq<Multiaddr>,
)
    requires
        0 <= k <= records.len(),
    ensures
        ({
            let some = provider_answers(records.take(k), source, t, connected, own_addrs);
            let all = provider_answers(records, source, t, connected, own_addrs);
            some.len() <= all.len() && all.take(some.len() as int) == some
        }),
    decreases records.len(),
{
    let some = provider_answers(records.take(k), source, t, connected, own_addrs);
    let all = provider_answers(records, source, t, connected, own_addrs);
    if k == records.len() {
        assert(records.take(k) =~= records);
        assert(all.take(some.len() as int) =~= some);
    } else {
        let front = records.drop_last();
        lemma_provider_answers_prefix(front, k, source, t, connected, own_addrs);
        assert(front.take(k) =~= records.take(k));
        let most = provider_answers(front, source, t, connected, own_addrs);
        assert(all.take(some.len() as int) =~= most.take(some.len() as int));
    }
}

impl Query {
    /// Learns the addresses of peers, and lists those peers.
    fn learn(&mut self, list: &Vec<KadPeer>, local: &PeerId, names: &mut Vec<PeerId>)
        requires
            old(self).wf(),
        ensures
            final(self).wf(),
            *final(self) == (Query {
                peers: QueryPeers { addresses: final(self).peers.addresses, ..old(self).peers },
                ..*old(self)
            }),
            addr_views(final(self).peers.addresses.entries@) == learned(
                addr_views(old(self).peers.addresses.entries@),
                others(kad_peers(list@), *local),
            ),
            final(names)@ == old(names)@ + named(others(kad_peers(list@), *local)),
    {
        let ghost before = *self;
        let ghost names0 = names@;
        let ghost views = kad_peers(list@);
        let ghost f = |p: KadPeerView| p.peer != *local;
        let n: usize = list.len();
        let mut i: usize = 0;
        proof {
            reveal(Seq::filter);
            assert(views.take(0).filter(f) =~= Seq::empty());
            assert(names@ =~= names0 + named(views.take(0).filter(f)));
        }
        while i < n
            invariant
                n == list@.len(),
                i <= n,
                views == kad_peers(list@),
                f == (|p: KadPeerView| p.peer != *local),
                self.wf(),
                before.wf(),
                *self == (Query {
                    peers: QueryPeers { addresses: self.peers.addresses, ..before.peers },
                    ..before
                }),
                addr_views(self.peers.addresses.entries@) == learned(
                    addr_views(before.peers.addresses.entries@),
                    views.take(i as int).filter(f),
                ),
                names@ == names0 + named(views.take(i as int).filter(f)),
            decreases n - i,
        {
            let ghost so_far = views.take(i as int).filter(f);
            proof {
                assert(views[i as int] == list@[i as int]@);
                assert(views.take(i + 1) =~= views.take(i as int).push(views[i as int]));
                lemma_filter_push(views.take(i as int), views[i as int], f);
            }
            if !list[i].node_id.same(local) {
                let addrs = list[i].multiaddrs.clone();
                proof {
                    assert(addrs@ =~= list@[i as int].multiaddrs@);
                    lemma_addr_views_insert(
                        self.peers.addresses.entries@,
                        list@[i as int].node_id,
                        addrs,
                    );
                    assert(so_far.push(views[i as int]).drop_last() =~= so_far);
                    assert(named(so_far.push(views[i as int])) =~= named(so_far).push(
                        views[i as int].peer,
                    ));
                }
                self.peers.addresses.insert(list[i].node_id, addrs);
                names.push(list[i].node_id);
                proof {
                    assert(names@ =~= names0 + named(so_far.push(views[i as int])));
                }
            }
            i = i + 1;
        }
        assert(views.take(n as int) =~= views);
    }
}

/// Learning from two lists is learning from both as one.
proof fn lemma_learned_both(
    known: Seq<(PeerId, Seq<Multiaddr>)>,
    a: Seq<KadPeerView>,
    b: Seq<KadPeerView>,
)
    ensures
        learned(learned(known, a), b) == learned(known, a + b),
    decreases b.len(),
{
    if b.len() == 0 {
        assert(a + b =~= a);
    } else {
        lemma_learned_both(known, a, b.drop_last());
        assert((a + b).drop_last() =~= a + b.drop_last());
        assert((a + b).last() == b.last());
    }
}

impl<TStore> Behaviour<TStore> {
    /// Takes an answer to a request of a query, which names peers in two lists.
    pub fn discovered(
        &mut self,
        query_id: &QueryId,
        source: &PeerId,
        first: &Vec<KadPeer>,
        second: &Vec<KadPeer>,
    )
        requires
            old(self).wf(),
        ensures
            final(self).wf(),
            *final(self) == (Behaviour { queries: final(self).queries, ..*old(self) }),
            one_query(
                old(self).queries,
                final(self).queries,
                *query_id,
                peers_named(
                    *source,
                    others(kad_peers(first@) + kad_peers(second@), old(self).local_peer_id),
                ),
            ),
    {
        let ghost entries = self.queries.queries.entries@;
        if let Some(i) = self.queries.queries.position(query_id) {
            let mut names: Vec<PeerId> = Vec::new();
            let local = self.local_peer_id;
            let ghost q0 = entries[i as int].1;
            proof {
                assert(q0.wf());
                let f = |p: KadPeerView| p.peer != local;
                Seq::filter_distributes_over_add(kad_peers(first@), kad_peers(second@), f);
                let a = others(kad_peers(first@), local);
                let b = others(kad_peers(second@), local);
                assert(others(kad_peers(first@) + kad_peers(second@), local) == a + b);
                lemma_learned_both(addr_views(q0.peers.addresses.entries@), a, b);
                assert(named(a) + named(b) =~= named(a + b));
            }
            self.queries.queries.entries[i].1.learn(first, &local, &mut names);
            self.queries.queries.entries[i].1.learn(second, &local, &mut names);
            self.queries.queries.entries[i].1.on_success(source, &names);
            proof {
                let a = others(kad_peers(first@), local);
                let b = others(kad_peers(second@), local);
                assert(names@ =~= named(a + b));
                let q2 = self.queries.queries.entries@[i as int].1;
                lemma_pool_put(entries, *query_id, q2);
                assert(self.queries.queries.entries@ =~= entries_insert(entries, *query_id, q2));
            }
        }
    }

    /// The addresses of the local node.
    fn local_addresses(&self) -> (r: Vec<Multiaddr>)
        ensures
            own_addresses(*self, r@),
    {
        let mut listen = listen_list(&self.listen_addresses);
        let mut external = external_list(&self.external_addresses);
        let ghost listing = listen@;
        let ghost known = external@;
        listen.append(&mut external);
        proof {
            assert(lists_set(listing, listen_addrs(self.listen_addresses)));
            assert(listen@ =~= listing + known);
        }
        listen
    }

    /// What is said of the provider of a record, if anything.
    fn answer_provider(&self, record: &ProviderRecord, source: &PeerId, own_addrs: &Vec<Multiaddr>)
        -> (r: Option<KadPeer>)
        requires
            self.wf(),
        ensures
            match r {
                Some(p) => provider_answer(
                    *record,
                    *source,
                    self.kbuckets@,
                    self.connected_peers@,
                    own_addrs@,
                ) == Some(p@),
                None => provider_answer(
                    *record,
                    *source,
                    self.kbuckets@,
                    self.connected_peers@,
                    own_addrs@,
                ) is None,
            },
    {
        let node_id = record.provider;
        if node_id.same(source) {
            return None;
        }
        let connection_ty = if contains_peer(&self.connected_peers, &node_id) {
            ConnectionType::Connected
        } else {
            ConnectionType::NotConnected
        };
        let multiaddrs = if record.addresses.len() > 0 {
            let addrs = record.addresses.clone();
            assert(addrs@ =~= record.addresses@);
            addrs
        } else if node_id.same(&self.local_peer_id) {
            let addrs = own_addrs.clone();
            assert(addrs@ =~= own_addrs@);
            addrs
        } else {
            let key = KeyBytes::from_peer(&node_id);
            match self.kbuckets.entry(&key) {
                Some(Entry::Present(i)) => self.kbuckets.show_node(i).addresses.into_vec(),
                Some(Entry::Pending(i)) => self.kbuckets.show_pending(i).addresses.into_vec(),
                _ => return None,
            }
        };
        Some(KadPeer { node_id, multiaddrs, connection_ty })
    }

    /// What is said of the providers of a key, when the local store returned `records` for it
    /// and the local node has the given addresses.
    pub fn provider_peers_with(
        &self,
        records: &Vec<ProviderRecord>,
        source: &PeerId,
        own_addrs: &Vec<Multiaddr>,
    ) -> (r: Vec<KadPeer>)
        requires
            self.wf(),
        ensures
            kad_peers(r@) == providers_told(*self, records@, *source, own_addrs@),
    {
        let limit: usize = self.queries.config.replication_factor.get();
        let ghost t = self.kbuckets@;
        let ghost connected = self.connected_peers@;
        let mut r: Vec<KadPeer> = Vec::new();
        let n: usize = records.len();
        let mut i: usize = 0;
        assert(kad_peers(r@) =~= Seq::empty());
        while i < n && r.len() < limit
            invariant
                n == records@.len(),
                i <= n,
                self.wf(),
                t == self.kbuckets@,
                connected == self.connected_peers@,
                r@.len() <= limit,
                kad_peers(r@) == provider_answers(
                    records@.take(i as int),
                    *source,
                    t,
                    connected,
                    own_addrs@,
                ),
            decreases n - i,
        {
            let ghost so_far = r@;
            proof {
                assert(records@.take(i + 1).drop_last() =~= records@.take(i as int));
                assert(records@.take(i + 1).last() == records@[i as int]);
            }
            if let Some(p) = self.answer_provider(&records[i], source, own_addrs) {
                r.push(p);
                assert(kad_peers(r@) =~= kad_peers(so_far).push(p@));
            }
            i = i + 1;
        }
        proof {
            lemma_provider_answers_prefix(records@, i as int, *source, t, connected, own_addrs@);
            let all = provider_answers(records@, *source, t, connected, own_addrs@);
            assert(kad_peers(r@).len() == r@.len());
            if i == n {
                assert(records@.take(n as int) =~= records@);
            }
            assert(kad_peers(r@) =~= at_most(all, limit as nat));
        }
        r
    }
}

impl<TStore: RecordStore> Behaviour<TStore> {
    /// What is said of the providers of a key.
    pub fn provider_peers(&self, key: &Key, source: &PeerId) -> (r: Vec<KadPeer>)
        requires
            self.wf(),
        ensures
            exists|records: Seq<ProviderRecord>, own_addrs: Seq<Multiaddr>|
                self.store.may_list_providers(*key, records) && own_addresses(*self, own_addrs)
                    && kad_peers(r@) == #[trigger] providers_told(
                    *self,
                    records,
                    *source,
                    own_addrs,
                ),
    {
        let records = self.store.providers(key);
        let own_addrs = self.local_addresses();
        self.provider_peers_with(&records, source, &own_addrs)
    }
}

} // verus!
