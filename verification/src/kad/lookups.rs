//! How the behaviour starts queries.

use libp2p_core::Multiaddr;
use libp2p_identity::PeerId;
use vstd::prelude::*;

use crate::assoc::add_item;
use crate::assoc::entries_insert;
use crate::assoc::entries_remove;
use crate::assoc::has_key;
use crate::assoc::key_index;
use crate::assoc::lemma_with_item;
use crate::assoc::Assoc;
use crate::assoc::Ident;
use crate::kad::behaviour::queued_one;
use crate::kad::behaviour::Behaviour;
use crate::kad::behaviour::Request;
use crate::kad::bootstrap::Signal;
use crate::kad::config::k_value;
use crate::kad::config::K_VALUE;
use crate::kad::events::AddProviderContext;
use crate::kad::events::AddProviderPhase;
use crate::kad::events::Event;
use crate::kad::events::GetProvidersOk;
use crate::kad::events::GetRecordOk;
use crate::kad::events::NoKnownPeers;
use crate::kad::events::PeerRecord;
use crate::kad::events::ProgressStep;
use crate::kad::events::PutRecordContext;
use crate::kad::events::PutRecordPhase;
use crate::kad::events::QueryInfo;
use crate::kad::events::QueryResult;
use crate::kad::events::QueryStats;
use crate::kad::events::Quorum;
use crate::kad::kbucket::lemma_filter_push;
use crate::kad::kbucket::peers_of;
use crate::kad::kbucket::TableView;
use crate::kad::key::key_of_bytes;
use crate::kad::key::key_of_peer;
use crate::kad::key::KeyBytes;
use crate::kad::order::at_most;
use crate::kad::order::law_by_distance_sorts;
use crate::kad::protocol::kad_peer_of;
use crate::kad::protocol::kad_peers;
use crate::kad::protocol::KadPeer;
use crate::kad::protocol::KadPeerView;
use crate::kad::protocol::QueryId;
use crate::kad::query::addr_views;
use crate::kad::query::closest_kind;
use crate::kad::query::lemma_addr_views_insert;
use crate::kad::query::pool_added;
use crate::kad::query::seeds_of;
use crate::kad::query::PeersKind;
use crate::kad::query::Query;
use crate::kad::query::QueryPool;
use crate::kad::record::expired;
use crate::kad::record::Key;
use crate::kad::record::ProviderRecord;
use crate::kad::record::Record;
use crate::kad::record::RecordStore;
use crate::kad::record::StoreError;
use crate::net::is_present;
use crate::nonzero::NonZeroUsize;
use crate::swarm::ToSwarm;
use crate::time::Duration;
use crate::time::Moment;
use crate::time::MAX_ELAPSED;

verus! {

/// The query with the given number.
pub open spec fn query_in(pool: QueryPool, id: QueryId) -> Query {
    pool.queries.entries@[key_index(pool.queries.entries@, id)].1
}

/// Whether a search for the peers closest to a key was started, from those of the routing
/// table.
pub open spec fn search_started(
    before: QueryPool,
    after: QueryPool,
    t: TableView,
    id: QueryId,
    target: KeyBytes,
) -> bool {
    let info = query_in(after, id).info;
    pool_added(
        before,
        after,
        id,
        info,
        closest_kind(before.config, target, info),
        seeds_of(t.closest_peers(target)),
    )
}

/// Whether a request reports progress of a query.
pub open spec fn reports(
    request: Request,
    query: QueryId,
    result: QueryResult,
    statistics: QueryStats,
    count: int,
    last: bool,
) -> bool {
    request matches ToSwarm::GenerateEvent(
        Event::OutboundQueryProgressed { id, result: r, stats, step },
    ) && id == query && r == result && stats == statistics && step.count@ == count && step.last
        == last
}

/// What a request reports.
pub open spec fn reported(request: Request) -> QueryResult {
    request->GenerateEvent_0->result
}

/// Tells other peers from the given one.
pub open spec fn not_peer(source: PeerId) -> spec_fn(PeerId) -> bool {
    |p: PeerId| p != source
}

/// The peers of the routing table closest to a key, without the given one, and no more than a
/// number.
pub open spec fn closest_but(t: TableView, target: KeyBytes, source: PeerId, n: nat) -> Seq<
    PeerId,
> {
    at_most(t.closest_peers(target).filter(not_peer(source)), n)
}

/// What the given peer is told when it asks for the peers closest to a key.
pub open spec fn closest_answer(t: TableView, target: KeyBytes, source: PeerId, n: nat) -> Seq<
    KadPeerView,
> {
    let peers = closest_but(t, target, source, n);
    Seq::new(peers.len(), |i: int| kad_peer_of(t.node_of(peers[i])))
}

/// When a record that is published now expires: as it says itself, or else after its time to
/// live.
pub open spec fn published_until(
    expires: Option<Moment>,
    ttl: Option<Duration>,
    now: Moment,
) -> Option<Moment> {
    match expires {
        Some(t) => Some(t),
        None => match ttl {
            Some(d) => Some(now.spec_add(d)),
            None => None,
        },
    }
}

/// Whether a record is found in the local store: there is one, and it has not expired.
pub open spec fn found_locally(got: Option<Record>, now: Moment) -> bool {
    got matches Some(record) && !expired(record.expires, now)
}

/// What the store is left as when a record was got from it: an expired one is removed.
pub open spec fn store_cleaned<S: RecordStore>(
    before: S,
    after: S,
    key: Key,
    got: Option<Record>,
    now: Moment,
) -> bool {
    if got is Some && expired(got->0.expires, now) {
        before.may_remove(key, after)
    } else {
        after == before
    }
}

/// What a search for a record changes, when the local store returned `got` for it.
pub open spec fn record_sought<S: RecordStore>(
    before: Behaviour<S>,
    after: Behaviour<S>,
    key: Key,
    got: Option<Record>,
    now: Moment,
    id: QueryId,
) -> bool {
    let found = found_locally(got, now);
    &&& after == (Behaviour {
        queries: after.queries,
        queued_events: after.queued_events,
        store: after.store,
        ..before
    })
    &&& store_cleaned(before.store, after.store, key, got, now)
    &&& search_started(
        before.queries,
        after.queries,
        before.kbuckets@,
        id,
        key_of_bytes(key@),
    )
    &&& query_in(after.queries, id).info matches QueryInfo::GetRecord {
        key: k,
        step,
        found_a_record,
        cache_candidates,
    } && k == key && !step.last && step.count@ == (if found {
        2int
    } else {
        1int
    }) && found_a_record == found && cache_candidates@.len() == 0
    &&& if found {
        &&& queued_one(before.queued_events@, after.queued_events@)
        &&& reports(
            after.queued_events@.last(),
            id,
            QueryResult::GetRecord(
                Ok(GetRecordOk::FoundRecord(PeerRecord { peer: None, record: got->0 })),
            ),
            QueryStats::none(),
            1,
            false,
        )
    } else {
        after.queued_events == before.queued_events
    }
}

/// What a search for a record changes, at the present and with what the local store returns.
pub open spec fn record_sought_now<S: RecordStore>(
    before: Behaviour<S>,
    after: Behaviour<S>,
    key: Key,
    id: QueryId,
) -> bool {
    exists|got: Option<Record>, now: Moment|
        before.store.may_get(key, got) && is_present(before.clock, now)
            && #[trigger] record_sought(before, after, key, got, now, id)
}

/// What the storing of a record at the peers closest to its key changes.
pub open spec fn put_started<S>(
    before: Behaviour<S>,
    after: Behaviour<S>,
    record: Record,
    quorum: Quorum,
    context: PutRecordContext,
    id: QueryId,
) -> bool {
    &&& after == (Behaviour { queries: after.queries, ..before })
    &&& search_started(
        before.queries,
        after.queries,
        before.kbuckets@,
        id,
        key_of_bytes(record.key@),
    )
    &&& query_in(after.queries, id).info matches QueryInfo::PutRecord {
        record: rec,
        quorum: q,
        phase,
        context: c,
    } && rec == record && q@ == quorum.spec_eval(
        before.queries.config.replication_factor@ as int,
    ) && phase is GetClosestPeers && c == context
}

/// What the publication of a record changes, and what is returned.
pub open spec fn record_published<S: RecordStore>(
    before: Behaviour<S>,
    after: Behaviour<S>,
    record: Record,
    quorum: Quorum,
    now: Moment,
    r: Result<QueryId, StoreError>,
) -> bool {
    let own = Record { publisher: Some(before.local_peer_id), ..record };
    match r {
        Ok(id) => {
            &&& before.store.may_put(own, after.store, None)
            &&& put_started(
                Behaviour { store: after.store, ..before },
                after,
                Record { expires: published_until(own.expires, before.record_ttl, now), ..own },
                quorum,
                PutRecordContext::Publish,
                id,
            )
        },
        Err(e) => {
            &&& before.store.may_put(own, after.store, Some(e))
            &&& after == (Behaviour { store: after.store, ..before })
        },
    }
}

/// What the publication of a record changes at the present, and what is returned.
pub open spec fn published_now<S: RecordStore>(
    before: Behaviour<S>,
    after: Behaviour<S>,
    record: Record,
    quorum: Quorum,
    r: Result<QueryId, StoreError>,
) -> bool {
    exists|now: Moment|
        is_present(before.clock, now) && #[trigger] record_published(
            before,
            after,
            record,
            quorum,
            now,
            r,
        )
}

/// What the storing of a record at given peers changes. The quorum is understood in the
/// context of the number of distinct peers.
pub open spec fn put_to_started<S>(
    before: Behaviour<S>,
    after: Behaviour<S>,
    record: Record,
    peers: Seq<PeerId>,
    quorum: Quorum,
    now: Moment,
    id: QueryId,
) -> bool {
    let info = query_in(after.queries, id).info;
    &&& after == (Behaviour { queries: after.queries, ..before })
    &&& pool_added(before.queries, after.queries, id, info, PeersKind::Fixed, peers)
    &&& info matches QueryInfo::PutRecord { record: rec, quorum: q, phase, context } && rec == (
    Record { expires: published_until(record.expires, before.record_ttl, now), ..record }) && q@
        == (if peers.len() == 0 {
        1
    } else {
        quorum.spec_eval(peers.to_set().len() as int)
    }) && context == PutRecordContext::Custom && (phase matches PutRecordPhase::PutRecord {
        success,
        get_closest_peers_stats,
    } && success@.len() == 0 && get_closest_peers_stats == QueryStats::none())
}

/// What the storing of a record at given peers changes at the present.
pub open spec fn stored_now_at<S>(
    before: Behaviour<S>,
    after: Behaviour<S>,
    record: Record,
    peers: Seq<PeerId>,
    quorum: Quorum,
    id: QueryId,
) -> bool {
    exists|now: Moment|
        is_present(before.clock, now) && #[trigger] put_to_started(
            before,
            after,
            record,
            peers,
            quorum,
            now,
            id,
        )
}

/// What the announcement of the local node as a provider changes.
pub open spec fn announcement_started<S>(
    before: Behaviour<S>,
    after: Behaviour<S>,
    key: Key,
    context: AddProviderContext,
    id: QueryId,
) -> bool {
    &&& after == (Behaviour { queries: after.queries, ..before })
    &&& search_started(
        before.queries,
        after.queries,
        before.kbuckets@,
        id,
        key_of_bytes(key@),
    )
    &&& query_in(after.queries, id).info matches QueryInfo::AddProvider {
        key: k,
        phase,
        context: c,
    } && k == key && phase is GetClosestPeers && c == context
}

/// Whether a provider record announces the local node, without addresses and for ever.
pub open spec fn own_announcement(record: ProviderRecord, key: Key, local: PeerId) -> bool {
    &&& record.key == key
    &&& record.provider == local
    &&& record.expires is None
    &&& record.addresses@.len() == 0
}

/// What providing a key changes, and what is returned.
pub open spec fn providing_started<S: RecordStore>(
    before: Behaviour<S>,
    after: Behaviour<S>,
    key: Key,
    r: Result<QueryId, StoreError>,
) -> bool {
    exists|record: ProviderRecord|
        #[trigger] own_announcement(record, key, before.local_peer_id) && match r {
            Ok(id) => {
                &&& before.store.may_add_provider(record, after.store, None)
                &&& announcement_started(
                    Behaviour { store: after.store, ..before },
                    after,
                    key,
                    AddProviderContext::Publish,
                    id,
                )
            },
            Err(e) => {
                &&& before.store.may_add_provider(record, after.store, Some(e))
                &&& after == (Behaviour { store: after.store, ..before })
            },
        }
}

/// What a bootstrap changes, and what is returned.
pub open spec fn bootstrap_started<S>(
    before: Behaviour<S>,
    after: Behaviour<S>,
    r: Result<QueryId, NoKnownPeers>,
) -> bool {
    if before.kbuckets@.nodes.len() == 0 {
        &&& r is Err
        &&& after == (Behaviour { bootstrap_status: after.bootstrap_status, ..before })
        &&& before.bootstrap_status.signaled(after.bootstrap_status, Signal::ResetTimers)
    } else {
        &&& r matches Ok(id)
        &&& after == (Behaviour {
            queries: after.queries,
            bootstrap_status: after.bootstrap_status,
            ..before
        })
        &&& before.bootstrap_status.signaled(after.bootstrap_status, Signal::Started)
        &&& search_started(
            before.queries,
            after.queries,
            before.kbuckets@,
            id,
            key_of_peer(before.local_peer_id),
        )
        &&& query_in(after.queries, id).info matches QueryInfo::Bootstrap {
            peer,
            remaining,
            step,
        } && peer == before.local_peer_id && remaining is None && step.count@ == 1 && !step.last
    }
}

/// The providers of a list of records that have not expired, each with its addresses.
pub open spec fn live_providers(records: Seq<ProviderRecord>, now: Moment) -> Seq<
    (PeerId, Seq<Multiaddr>),
>
    decreases records.len(),
{
    if records.len() == 0 {
        Seq::empty()
    } else {
        let before = live_providers(records.drop_last(), now);
        let record = records.last();
        if expired(record.expires, now) {
            before
        } else {
            entries_insert(before, record.provider, record.addresses@)
        }
    }
}

/// The keys of a list of entries.
pub open spec fn keys_of<K, V>(entries: Seq<(K, V)>) -> Seq<K> {
    Seq::new(entries.len(), |i: int| entries[i].0)
}

/// Whether a request reports that providers were found.
pub open spec fn reports_providers(
    request: Request,
    id: QueryId,
    key: Key,
    found: Seq<(PeerId, Seq<Multiaddr>)>,
    stats: QueryStats,
    count: int,
) -> bool {
    &&& reports(request, id, reported(request), stats, count, false)
    &&& reported(request) matches QueryResult::GetProviders(
        Ok(GetProvidersOk::FoundProviders { key: k, providers }),
    ) && k == key && addr_views(providers.entries@) == found
}

/// What a search for providers changes, when the local store returned `records` for it.
pub open spec fn providers_sought<S>(
    before: Behaviour<S>,
    after: Behaviour<S>,
    key: Key,
    records: Seq<ProviderRecord>,
    now: Moment,
    id: QueryId,
) -> bool {
    let found = live_providers(records, now);
    &&& after == (Behaviour {
        queries: after.queries,
        queued_events: after.queued_events,
        ..before
    })
    &&& search_started(
        before.queries,
        after.queries,
        before.kbuckets@,
        id,
        key_of_bytes(key@),
    )
    &&& query_in(after.queries, id).info matches QueryInfo::GetProviders {
        key: k,
        providers_found,
        reported: known,
        step,
    } && k == key && providers_found == found.len() && known@ == keys_of(found) && !step.last
        && step.count@ == (if found.len() > 0 {
        2int
    } else {
        1int
    })
    &&& if found.len() > 0 {
        &&& queued_one(before.queued_events@, after.queued_events@)
        &&& reports_providers(
            after.queued_events@.last(),
            id,
            key,
            found,
            QueryStats::none(),
            1,
        )
    } else {
        after.queued_events == before.queued_events
    }
}

/// The number of distinct peers of a list.
fn count_distinct(peers: &Vec<PeerId>) -> (r: usize)
    ensures
        r == peers@.to_set().len(),
{
    let mut seen: Vec<PeerId> = Vec::new();
    let n: usize = peers.len();
    let mut i: usize = 0;
    while i < n
        invariant
            n == peers@.len(),
            i <= n,
            seen@.no_duplicates(),
            forall|p: PeerId| #[trigger]
                seen@.contains(p) <==> exists|j: int| 0 <= j < i && #[trigger] peers@[j] == p,
        decreases n - i,
    {
        let ghost before = seen@;
        proof {
            lemma_with_item(seen@, peers@[i as int]);
        }
        add_item(&mut seen, peers[i]);
        proof {
            assert forall|p: PeerId| #[trigger] seen@.contains(p) <==> exists|j: int|
                0 <= j < i + 1 && #[trigger] peers@[j] == p by {
                assert(seen@.contains(p) <==> before.contains(p) || p == peers@[i as int]);
                if before.contains(p) {
                    let j = choose|j: int| 0 <= j < i && #[trigger] peers@[j] == p;
                    assert(0 <= j < i + 1 && peers@[j] == p);
                }
            }
        }
        i = i + 1;
    }
    proof {
        seen@.unique_seq_to_set();
        assert forall|p: PeerId| seen@.to_set().contains(p) <==> peers@.to_set().contains(p) by {
            assert(seen@.to_set().contains(p) <==> seen@.contains(p));
            if peers@.contains(p) {
                let j = peers@.index_of(p);
                assert(0 <= j < n && peers@[j] == p);
            }
        }
        assert(seen@.to_set() =~= peers@.to_set());
    }
    seen.len()
}

/// Whether an optional peer is the given one.
pub fn is_peer(a: &Option<PeerId>, b: &PeerId) -> (r: bool)
    ensures
        r == (*a == Some(*b)),
{
    match a {
        Some(p) => p.same(b),
        None => false,
    }
}

/// When a record that is published now expires.
fn expiration(expires: Option<Moment>, ttl: Option<Duration>, now: Moment) -> (r: Option<Moment>)
    requires
        now.nanos <= MAX_ELAPSED,
    ensures
        r == published_until(expires, ttl, now),
{
    match expires {
        Some(t) => Some(t),
        None => match ttl {
            Some(d) => Some(now.plus(d)),
            None => None,
        },
    }
}

/// Keeps those of a list of provider records that have not expired.
fn collect_live(records: Vec<ProviderRecord>, now: Moment) -> (r: Assoc<PeerId, Vec<Multiaddr>>)
    ensures
        r.wf(),
        addr_views(r.entries@) == live_providers(records@, now),
{
    let mut r: Assoc<PeerId, Vec<Multiaddr>> = Assoc::new();
    let n: usize = records.len();
    let mut i: usize = 0;
    assert(addr_views(r.entries@) =~= Seq::empty());
    while i < n
        invariant
            n == records@.len(),
            i <= n,
            r.wf(),
            addr_views(r.entries@) == live_providers(records@.take(i as int), now),
        decreases n - i,
    {
        proof {
            assert(records@.take(i + 1).drop_last() =~= records@.take(i as int));
            assert(records@.take(i + 1).last() == records@[i as int]);
        }
        if !records[i].is_expired(now) {
            let addresses = records[i].addresses.clone();
            assert(addresses@ =~= records@[i as int].addresses@);
            proof {
                lemma_addr_views_insert(r.entries@, records@[i as int].provider, addresses);
            }
            r.insert(records[i].provider, addresses);
        }
        i = i + 1;
    }
    assert(records@.take(n as int) =~= records@);
    r
}

/// The keys of a list of addresses.
fn assoc_keys(list: &Assoc<PeerId, Vec<Multiaddr>>) -> (r: Vec<PeerId>)
    requires
        list.wf(),
    ensures
        r@ == keys_of(addr_views(list.entries@)),
        r@.no_duplicates(),
{
    let mut r: Vec<PeerId> = Vec::new();
    let n: usize = list.entries.len();
    let mut i: usize = 0;
    while i < n
        invariant
            n == list.entries@.len(),
            i <= n,
            r@.len() == i,
            forall|j: int| 0 <= j < i ==> #[trigger] r@[j] == list.entries@[j].0,
        decreases n - i,
    {
        r.push(list.entries[i].0);
        i = i + 1;
    }
    proof {
        assert(r@ =~= keys_of(addr_views(list.entries@)));
        assert forall|a: int, b: int| 0 <= a < r@.len() && 0 <= b < r@.len() && a != b implies r@[a]
            != r@[b] by {
            if a < b {
                assert(list.entries@[a].0 != list.entries@[b].0);
            } else {
                assert(list.entries@[b].0 != list.entries@[a].0);
            }
        }
    }
    r
}

impl<TStore> Behaviour<TStore> {
    /// Starts a search for the peers closest to a key.
    pub fn get_closest_peers(&mut self, key: Vec<u8>) -> (id: QueryId)
        requires
            old(self).wf(),
        ensures
            final(self).wf(),
            closest_sought(*old(self), *final(self), key, None, id),
    {
        self.get_closest_peers_inner(key, None)
    }

    /// Starts a search for the given number of peers closest to a key, which is no more than
    /// [`K_VALUE`].
    pub fn get_n_closest_peers(&mut self, key: Vec<u8>, num_results: NonZeroUsize) -> (id: QueryId)
        requires
            old(self).wf(),
        ensures
            final(self).wf(),
            n_closest_sought(*old(self), *final(self), key, num_results@, id),
    {
        let capped_num_results = num_results.min(k_value());
        self.get_closest_peers_inner(key, Some(capped_num_results))
    }

    /// Starts a search for the peers closest to a key.
    fn get_closest_peers_inner(&mut self, key: Vec<u8>, num_results: Option<NonZeroUsize>) -> (id:
        QueryId)
        requires
            old(self).wf(),
        ensures
            final(self).wf(),
            closest_sought(*old(self), *final(self), key, num_results, id),
    {
        let target = KeyBytes::new(&key);
        let info = QueryInfo::GetClosestPeers { key, step: ProgressStep::first(), num_results };
        let peers = self.kbuckets.closest_keys(&target);
        self.queries.add_iter_closest(target, peers, info)
    }

    /// The peers of the routing table, from the closest to a key to the farthest.
    pub fn get_closest_local_peers(&self, key: &KeyBytes) -> (r: Vec<PeerId>)
        ensures
            r@ == self.kbuckets@.closest_peers(*key),
    {
        self.kbuckets.closest_keys(key)
    }

    /// What the given peer is told when it asks for the peers closest to a key: never itself,
    /// and no more than the replication factor.
    pub fn find_closest_local_peers(&self, key: &KeyBytes, source: &PeerId) -> (r: Vec<KadPeer>)
        requires
            self.wf(),
        ensures
            kad_peers(r@) == closest_answer(
                self.kbuckets@,
                *key,
                *source,
                self.queries.config.replication_factor@ as nat,
            ),
    {
        let limit: usize = self.queries.config.replication_factor.get();
        let shown = self.kbuckets.closest(key);
        let ghost t = self.kbuckets@;
        let ghost order = t.closest_peers(*key);
        let ghost f = not_peer(*source);
        let mut r: Vec<KadPeer> = Vec::new();
        let mut rest = shown;
        let ghost mut k: int = 0;
        proof {
            law_by_distance_sorts(peers_of(t.nodes), *key);
            reveal(Seq::filter);
            assert(order.take(0).filter(f) =~= Seq::empty());
        }
        while rest.len() > 0 && r.len() < limit
            invariant
                self.wf(),
                t == self.kbuckets@,
                order == t.closest_peers(*key),
                order.len() == t.nodes.len(),
                f == not_peer(*source),
                0 <= k <= order.len(),
                rest@.len() == order.len() - k,
                r@.len() <= limit,
                r@.len() == order.take(k).filter(f).len(),
                forall|j: int|
                    0 <= j < rest@.len() ==> (#[trigger] rest@[j])@ == t.node_of(order[k + j])
                        && rest@[j].peer == order[k + j],
                forall|j: int|
                    0 <= j < r@.len() ==> (#[trigger] r@[j])@ == kad_peer_of(
                        t.node_of(order.take(k).filter(f)[j]),
                    ),
            decreases rest@.len(),
        {
            let ghost rest0 = rest@;
            let ghost r0 = r@;
            let entry = rest.remove(0);
            proof {
                assert(entry@ == t.node_of(order[k]) && entry.peer == order[k]) by {
                    assert(rest0[0] == entry);
                }
                assert(order.take(k + 1) =~= order.take(k).push(order[k]));
                lemma_filter_push(order.take(k), order[k], f);
                assert forall|j: int| 0 <= j < rest@.len() implies (#[trigger] rest@[j])@
                    == t.node_of(order[k + 1 + j]) && rest@[j].peer == order[k + 1 + j] by {
                    assert(rest@[j] == rest0[j + 1]);
                }
            }
            if !entry.peer.same(source) {
                r.push(KadPeer::from(entry));
            }
            proof {
                k = k + 1;
            }
        }
        proof {
            let all = order.filter(f);
            let got = order.take(k).filter(f);
            assert(order =~= order.take(k) + order.skip(k));
            Seq::filter_distributes_over_add(order.take(k), order.skip(k), f);
            assert(all =~= got + order.skip(k).filter(f));
            if k == order.len() {
                assert(order.skip(k) =~= Seq::empty());
                reveal(Seq::filter);
                assert(order.skip(k).filter(f).len() == 0);
            }
            assert(at_most(all, limit as nat) =~= got);
            assert(kad_peers(r@) =~= closest_answer(t, *key, *source, limit as nat));
        }
        r
    }

    /// Starts the announcement of the local node as a provider.
    pub fn start_add_provider(&mut self, key: Key, context: AddProviderContext) -> (id: QueryId)
        requires
            old(self).wf(),
        ensures
            final(self).wf(),
            announcement_started(*old(self), *final(self), key, context, id),
    {
        let bytes = key.to_vec();
        let target = KeyBytes::new(&bytes);
        let info = QueryInfo::AddProvider { context, key, phase: AddProviderPhase::GetClosestPeers };
        let peers = self.kbuckets.closest_keys(&target);
        self.queries.add_iter_closest(target, peers, info)
    }

    /// Starts the storing of a record at the peers closest to its key.
    pub fn start_put_record(&mut self, record: Record, quorum: Quorum, context: PutRecordContext)
        -> (id: QueryId)
        requires
            old(self).wf(),
        ensures
            final(self).wf(),
            put_started(*old(self), *final(self), record, quorum, context, id),
    {
        let quorum = quorum.eval(self.queries.config.replication_factor);
        let bytes = record.key.to_vec();
        let target = KeyBytes::new(&bytes);
        let peers = self.kbuckets.closest_keys(&target);
        let info = QueryInfo::PutRecord {
            record,
            quorum,
            context,
            phase: PutRecordPhase::GetClosestPeers,
        };
        self.queries.add_iter_closest(target, peers, info)
    }

    /// Stores a record at given peers, and not locally.
    pub fn put_record_to(&mut self, record: Record, peers: Vec<PeerId>, quorum: Quorum) -> (id:
        QueryId)
        requires
            old(self).wf(),
        ensures
            final(self).wf(),
            stored_now_at(*old(self), *final(self), record, peers@, quorum, id),
    {
        let now = self.now();
        self.put_record_to_at(record, peers, quorum, now)
    }

    /// As [`Behaviour::put_record_to`], at a given point in time.
    pub fn put_record_to_at(
        &mut self,
        record: Record,
        peers: Vec<PeerId>,
        quorum: Quorum,
        now: Moment,
    ) -> (id: QueryId)
        requires
            old(self).wf(),
            now.nanos <= MAX_ELAPSED,
        ensures
            final(self).wf(),
            put_to_started(*old(self), *final(self), record, peers@, quorum, now, id),
    {
        let total: usize = count_distinct(&peers);
        proof {
            if peers@.len() > 0 {
                assert(peers@.to_set().contains(peers@[0]));
                if peers@.to_set().len() == 0 {
                    vstd::set_lib::lemma_set_empty_equivalency_len(peers@.to_set());
                }
            }
        }
        let quorum = if peers.len() > 0 {
            match NonZeroUsize::new(total) {
                Some(total) => quorum.eval(total),
                None => NonZeroUsize::one(),
            }
        } else {
            NonZeroUsize::one()
        };
        let mut record = record;
        record.expires = expiration(record.expires, self.record_ttl, now);
        let info = QueryInfo::PutRecord {
            context: PutRecordContext::Custom,
            record,
            quorum,
            phase: PutRecordPhase::PutRecord {
                success: Vec::new(),
                get_closest_peers_stats: QueryStats::empty(),
            },
        };
        self.queries.add_fixed(&peers, info)
    }

    /// Bootstraps the local node, with a search for the peers closest to itself. This is
    /// impossible if no peer is known.
    pub fn bootstrap(&mut self) -> (r: Result<QueryId, NoKnownPeers>)
        requires
            old(self).wf(),
        ensures
            final(self).wf(),
            bootstrap_started(*old(self), *final(self), r),
    {
        let local_key = KeyBytes::from_peer(&self.local_peer_id);
        let info = QueryInfo::Bootstrap {
            peer: self.local_peer_id,
            remaining: None,
            step: ProgressStep::first(),
        };
        let peers = self.kbuckets.closest_keys(&local_key);
        proof {
            law_by_distance_sorts(
                peers_of(self.kbuckets@.nodes),
                local_key,
            );
        }
        if peers.is_empty() {
            self.bootstrap_status.reset_timers();
            Err(NoKnownPeers())
        } else {
            self.bootstrap_status.on_started();
            Ok(self.queries.add_iter_closest(local_key, peers, info))
        }
    }

    /// Starts a search for the providers of a key, when the local store returned `records`
    /// for it.
    pub fn get_providers_with(&mut self, key: Key, records: Vec<ProviderRecord>, now: Moment)
        -> (id: QueryId)
        requires
            old(self).wf(),
        ensures
            final(self).wf(),
            providers_sought(*old(self), *final(self), key, records@, now, id),
    {
        let providers = collect_live(records, now);
        let reported = assoc_keys(&providers);
        let found: usize = providers.entries.len();
        assert(addr_views(providers.entries@).len() == found);
        let first = ProgressStep::first();
        let step = if found == 0 {
            first
        } else {
            first.next()
        };
        let info = QueryInfo::GetProviders {
            key: key.clone(),
            providers_found: found,
            reported,
            step,
        };
        let bytes = key.to_vec();
        let target = KeyBytes::new(&bytes);
        let peers = self.kbuckets.closest_keys(&target);
        let id = self.queries.add_iter_closest(target, peers, info);
        if found > 0 {
            self.queued_events.push_back(
                ToSwarm::GenerateEvent(
                    Event::OutboundQueryProgressed {
                        id,
                        result: QueryResult::GetProviders(
                            Ok(GetProvidersOk::FoundProviders { key, providers }),
                        ),
                        step: first,
                        stats: QueryStats::empty(),
                    },
                ),
            );
        }
        id
    }

    /// Cancels a running query, and says whether there was one.
    pub fn cancel_query(&mut self, id: &QueryId) -> (r: bool)
        requires
            old(self).wf(),
        ensures
            final(self).wf(),
            query_cancelled(*old(self), *final(self), *id, r),
    {
        self.queries.remove(id)
    }
}

/// What the cancellation of a query changes, and what is returned: whether there was one.
pub open spec fn query_cancelled<S>(
    before: Behaviour<S>,
    after: Behaviour<S>,
    id: QueryId,
    r: bool,
) -> bool {
    &&& after == (Behaviour { queries: after.queries, ..before })
    &&& after.queries == (QueryPool { queries: after.queries.queries, ..before.queries })
    &&& after.queries.queries.entries@ == entries_remove(before.queries.queries.entries@, id)
    &&& r == has_key(before.queries.queries.entries@, id)
}

/// What a search for the peers closest to a key changes.
pub open spec fn closest_sought<S>(
    before: Behaviour<S>,
    after: Behaviour<S>,
    key: Vec<u8>,
    number: Option<NonZeroUsize>,
    id: QueryId,
) -> bool {
    &&& after == (Behaviour { queries: after.queries, ..before })
    &&& search_started(
        before.queries,
        after.queries,
        before.kbuckets@,
        id,
        key_of_bytes(key@),
    )
    &&& query_in(after.queries, id).info matches QueryInfo::GetClosestPeers {
        key: k,
        step,
        num_results,
    } && k == key && step.count@ == 1 && !step.last && num_results == number
}

/// What a search for a given number of peers closest to a key changes: it is for no more than
/// [`K_VALUE`].
pub open spec fn n_closest_sought<S>(
    before: Behaviour<S>,
    after: Behaviour<S>,
    key: Vec<u8>,
    number: usize,
    id: QueryId,
) -> bool {
    exists|n: NonZeroUsize|
        n@ == (if number <= K_VALUE {
            number
        } else {
            K_VALUE
        }) && #[trigger] closest_sought(before, after, key, Some(n), id)
}

impl<TStore: RecordStore> Behaviour<TStore> {
    /// Starts a search for a record.
    pub fn get_record(&mut self, key: Key) -> (id: QueryId)
        requires
            old(self).wf(),
        ensures
            final(self).wf(),
            record_sought_now(*old(self), *final(self), key, id),
    {
        let now = self.now();
        let got = self.store.get(&key);
        self.get_record_with(key, got, now)
    }

    /// Starts a search for a record, when the local store returned `got` for it.
    pub fn get_record_with(&mut self, key: Key, got: Option<Record>, now: Moment) -> (id: QueryId)
        requires
            old(self).wf(),
        ensures
            final(self).wf(),
            record_sought(*old(self), *final(self), key, got, now, id),
    {
        let found = self.look_up(&key, got, now);
        let first = ProgressStep::first();
        let bytes = key.to_vec();
        let target = KeyBytes::new(&bytes);
        let step = if found.is_some() {
            first.next()
        } else {
            first
        };
        let info = QueryInfo::GetRecord {
            key,
            step,
            found_a_record: found.is_some(),
            cache_candidates: Vec::new(),
        };
        let peers = self.kbuckets.closest_keys(&target);
        let id = self.queries.add_iter_closest(target, peers, info);
        if let Some(record) = found {
            self.queued_events.push_back(
                ToSwarm::GenerateEvent(
                    Event::OutboundQueryProgressed {
                        id,
                        result: QueryResult::GetRecord(
                            Ok(GetRecordOk::FoundRecord(PeerRecord { peer: None, record })),
                        ),
                        step: first,
                        stats: QueryStats::empty(),
                    },
                ),
            );
        }
        id
    }

    /// Looks at what the local store returned for a key: an expired record is removed.
    pub fn look_up(&mut self, key: &Key, got: Option<Record>, now: Moment) -> (r: Option<Record>)
        requires
            old(self).wf(),
        ensures
            final(self).wf(),
            *final(self) == (Behaviour { store: final(self).store, ..*old(self) }),
            store_cleaned(old(self).store, final(self).store, *key, got, now),
            r == (if found_locally(got, now) {
                got
            } else {
                None
            }),
    {
        match got {
            Some(record) => {
                if record.is_expired(now) {
                    self.store.remove(key);
                    None
                } else {
                    Some(record)
                }
            },
            None => None,
        }
    }

    /// Stores a record locally, and at the peers closest to its key.
    pub fn put_record(&mut self, record: Record, quorum: Quorum) -> (r: Result<QueryId, StoreError>)
        requires
            old(self).wf(),
        ensures
            final(self).wf(),
            published_now(*old(self), *final(self), record, quorum, r),
    {
        let now = self.now();
        self.put_record_at(record, quorum, now)
    }

    /// As [`Behaviour::put_record`], at a given point in time.
    pub fn put_record_at(&mut self, record: Record, quorum: Quorum, now: Moment) -> (r: Result<
        QueryId,
        StoreError,
    >)
        requires
            old(self).wf(),
            now.nanos <= MAX_ELAPSED,
        ensures
            final(self).wf(),
            record_published(*old(self), *final(self), record, quorum, now, r),
    {
        let mut record = record;
        record.publisher = Some(self.local_peer_id);
        match self.store.put(record.clone()) {
            Ok(()) => {},
            Err(e) => return Err(e),
        }
        record.expires = expiration(record.expires, self.record_ttl, now);
        Ok(self.start_put_record(record, quorum, PutRecordContext::Publish))
    }

    /// Removes a record from the local store, if the local node published it.
    pub fn remove_record(&mut self, key: &Key)
        requires
            old(self).wf(),
        ensures
            final(self).wf(),
            own_record_removed(*old(self), *final(self), *key),
    {
        let got = self.store.get(key);
        self.remove_record_with(key, got);
    }

    /// As [`Behaviour::remove_record`], when the local store returned `got` for the key.
    pub fn remove_record_with(&mut self, key: &Key, got: Option<Record>)
        requires
            old(self).wf(),
        ensures
            final(self).wf(),
            record_removed(*old(self), *final(self), *key, got),
    {
        if let Some(record) = got {
            if is_peer(&record.publisher, &self.local_peer_id) {
                self.store.remove(key);
            }
        }
    }

    /// Establishes the local node as a provider of a key.
    pub fn start_providing(&mut self, key: Key) -> (r: Result<QueryId, StoreError>)
        requires
            old(self).wf(),
        ensures
            final(self).wf(),
            providing_started(*old(self), *final(self), key, r),
    {
        let record = ProviderRecord::new(key.clone(), self.local_peer_id, Vec::new());
        let ghost announced = record;
        let ghost before = *self;
        assert(own_announcement(announced, key, before.local_peer_id));
        match self.store.add_provider(record) {
            Ok(()) => {},
            Err(e) => return Err(e),
        }
        Ok(self.start_add_provider(key, AddProviderContext::Publish))
    }

    /// Stops the local node from announcing that it is a provider of a key.
    pub fn stop_providing(&mut self, key: &Key)
        requires
            old(self).wf(),
        ensures
            final(self).wf(),
            providing_stopped(*old(self), *final(self), *key),
    {
        self.store.remove_provider(key, &self.local_peer_id);
    }

    /// Starts a search for the providers of a key.
    pub fn get_providers(&mut self, key: Key) -> (id: QueryId)
        requires
            old(self).wf(),
        ensures
            final(self).wf(),
            providers_sought_now(*old(self), *final(self), key, id),
    {
        let now = self.now();
        let records = self.store.providers(&key);
        self.get_providers_with(key, records, now)
    }
}

/// What a search for providers changes, at the present and with what the local store returns.
pub open spec fn providers_sought_now<S: RecordStore>(
    before: Behaviour<S>,
    after: Behaviour<S>,
    key: Key,
    id: QueryId,
) -> bool {
    exists|records: Seq<ProviderRecord>, now: Moment|
        before.store.may_list_providers(key, records) && is_present(before.clock, now)
            && #[trigger] providers_sought(before, after, key, records, now, id)
}

/// What the removal of a record changes, when the local store returned `got` for it.
pub open spec fn record_removed<S: RecordStore>(
    before: Behaviour<S>,
    after: Behaviour<S>,
    key: Key,
    got: Option<Record>,
) -> bool {
    &&& after == (Behaviour { store: after.store, ..before })
    &&& if got is Some && got->0.publisher == Some(before.local_peer_id) {
        before.store.may_remove(key, after.store)
    } else {
        after.store == before.store
    }
}

/// What the removal of a record changes, with what the local store returns for it.
pub open spec fn own_record_removed<S: RecordStore>(
    before: Behaviour<S>,
    after: Behaviour<S>,
    key: Key,
) -> bool {
    exists|got: Option<Record>| #[trigger]
        before.store.may_get(key, got) && record_removed(before, after, key, got)
}

/// What the end of providing a key changes.
pub open spec fn providing_stopped<S: RecordStore>(
    before: Behaviour<S>,
    after: Behaviour<S>,
    key: Key,
) -> bool {
    &&& after == (Behaviour { store: after.store, ..before })
    &&& before.store.may_remove_provider(key, before.local_peer_id, after.store)
}

} // verus!
