//! Laws on how a query goes: which peers it starts from, what their answers change, whom it
//! asks and for what, and what it finds.

use libp2p_identity::PeerId;
use libp2p_swarm::ConnectionId;
use vstd::prelude::*;

use crate::assoc::entries_insert;
use crate::assoc::entries_map;
use crate::assoc::has_key;
use crate::assoc::key_index;
use crate::assoc::keys_distinct;
use crate::assoc::lemma_entries_insert;
use crate::assoc::lemma_filtered;
use crate::assoc::lemma_insert_get;
use crate::assoc::lemma_key_index;
use crate::kad::answers::named;
use crate::kad::answers::others;
use crate::kad::behaviour::Behaviour;
use crate::kad::bootstrap::Signal;
use crate::kad::events::AddProviderContext;
use crate::kad::events::NoKnownPeers;
use crate::kad::events::PutRecordContext;
use crate::kad::events::PutRecordPhase;
use crate::kad::events::QueryInfo;
use crate::kad::events::QueryStats;
use crate::kad::events::Quorum;
use crate::kad::inbound::event_handled;
use crate::kad::kbucket::peers_of;
use crate::kad::kbucket::TableView;
use crate::kad::key::key_of_bytes;
use crate::kad::key::key_of_peer;
use crate::kad::key::lemma_distance_order;
use crate::kad::key::KeyBytes;
use crate::kad::laws::lemma_succeeded;
use crate::kad::laws::lemma_succeeded_distinct;
use crate::kad::laws::peers_in;
use crate::kad::laws::query_of;
use crate::kad::lookups::announcement_started;
use crate::kad::lookups::bootstrap_started;
use crate::kad::lookups::closest_sought;
use crate::kad::lookups::n_closest_sought;
use crate::kad::lookups::providers_sought;
use crate::kad::lookups::put_started;
use crate::kad::lookups::put_to_started;
use crate::kad::lookups::query_in;
use crate::kad::lookups::record_sought;
use crate::kad::lookups::search_started;
use crate::kad::order::by_distance;
use crate::kad::order::law_by_distance_sorts;
use crate::kad::order::lemma_by_distance_distinct;
use crate::kad::order::peer_distance;
use crate::kad::protocol::HandlerEvent;
use crate::kad::protocol::KadPeerView;
use crate::kad::protocol::QueryId;
use crate::kad::query::answered;
use crate::kad::query::closest_kind;
use crate::kad::query::is_new;
use crate::kad::query::lemma_addr_views_key;
use crate::kad::query::lemma_with_candidates;
use crate::kad::query::seeds_of;
use crate::kad::query::state_of;
use crate::kad::query::succeeded;
use crate::kad::query::with_candidates;
use crate::kad::query::PeerState;
use crate::kad::query::PeersKind;
use crate::kad::query::Query;
use crate::kad::query::QueryPeers;
use crate::kad::query::QueryPool;
use crate::kad::record::Key;
use crate::kad::record::ProviderRecord;
use crate::kad::record::Record;
use crate::kad::record::RecordStore;
use crate::net::peer_id_bytes;
use crate::nonzero::NonZeroUsize;
use crate::time::Duration;
use crate::time::MAX_ELAPSED;
use crate::time::Moment;

verus! {

/// How far a peer is from a key, as a number.
pub open spec fn far(p: PeerId, target: KeyBytes) -> nat {
    key_of_peer(p).spec_distance(target)@
}

/// Whether a peer is a candidate of a query.
pub open spec fn is_candidate(peers: QueryPeers, p: PeerId) -> bool {
    peers.candidates@.contains_key(p)
}

/// Whether a candidate of a query is in the given state.
pub open spec fn is_in(peers: QueryPeers, p: PeerId, state: PeerState) -> bool {
    is_candidate(peers, p) && peers.candidates@[p] == state
}

/// The number of candidates that have answered.
pub open spec fn answers(peers: QueryPeers) -> nat {
    peers.candidates.entries@.filter(|e: (PeerId, PeerState)| e.1 == PeerState::Succeeded).len()
}

/// Whether a list names a peer.
pub open spec fn names(list: Seq<KadPeerView>, p: PeerId) -> bool {
    exists|i: int| 0 <= i < list.len() && (#[trigger] list[i]).peer == p
}

/// Whether the routing table holds a peer.
pub open spec fn holds(t: TableView, p: PeerId) -> bool {
    exists|i: int| 0 <= i < t.nodes.len() && (#[trigger] t.nodes[i]).peer == p
}

////////////////////////////////////////////////////////////////////////////////
// What a query finds

/// The state of a candidate is the one that the map of candidates holds.
pub proof fn lemma_state(peers: QueryPeers, p: PeerId)
    ensures
        state_of(peers.candidates.entries@, p) == (if is_candidate(peers, p) {
            Some(peers.candidates@[p])
        } else {
            None
        }),
{
    let entries = peers.candidates.entries@;
    assert(entries_map(entries).contains_key(p) == has_key(entries, p));
}

/// The candidates that have answered are as many as are counted.
proof fn lemma_answers(entries: Seq<(PeerId, PeerState)>)
    ensures
        succeeded(entries).len() == entries.filter(
            |e: (PeerId, PeerState)| e.1 == PeerState::Succeeded,
        ).len(),
    decreases entries.len(),
{
    reveal(Seq::filter);
    if entries.len() > 0 {
        lemma_answers(entries.drop_last());
    }
}

/// A candidate has answered exactly if it is listed so.
proof fn lemma_has_answered(peers: QueryPeers, p: PeerId)
    requires
        peers.wf(),
    ensures
        succeeded(peers.candidates.entries@).contains(p) <==> is_in(peers, p, PeerState::Succeeded),
{
    let entries = peers.candidates.entries@;
    lemma_succeeded(entries, p);
    lemma_state(peers, p);
    if is_in(peers, p, PeerState::Succeeded) {
        let i = key_index(entries, p);
        assert(entries[i] == (p, PeerState::Succeeded));
    }
    if exists|i: int| 0 <= i < entries.len() && #[trigger] entries[i] == (p, PeerState::Succeeded) {
        let i = choose|i: int|
            0 <= i < entries.len() && #[trigger] entries[i] == (p, PeerState::Succeeded);
        lemma_key_index(entries, i);
    }
}

/// The results of a query are complete. Every candidate that has answered is among them, unless
/// as many as were asked for are, all at least as close to the target; of a query of given peers,
/// every one. None is there twice, and none that has not answered.
pub proof fn law_search_results_are_complete(peers: QueryPeers, p: PeerId)
    requires
        peers.wf(),
    ensures
        peers.results().no_duplicates(),
        peers.results().contains(p) ==> is_in(peers, p, PeerState::Succeeded),
        match peers.kind {
            PeersKind::Closest { target, num_results } => {
                let wanted = num_results@ as nat;
                &&& peers.results().len() == (if answers(peers) < wanted {
                    answers(peers)
                } else {
                    wanted
                })
                &&& is_in(peers, p, PeerState::Succeeded) && !peers.results().contains(p) ==> {
                    &&& peers.results().len() == wanted
                    &&& forall|i: int|
                        0 <= i < peers.results().len() ==> far(
                            #[trigger] peers.results()[i],
                            target,
                        ) <= far(p, target)
                }
                &&& forall|i: int, j: int|
                    0 <= i < j < peers.results().len() ==> far(
                        #[trigger] peers.results()[i],
                        target,
                    ) <= far(#[trigger] peers.results()[j], target)
            },
            PeersKind::Fixed => {
                &&& peers.results().len() == answers(peers)
                &&& is_in(peers, p, PeerState::Succeeded) ==> peers.results().contains(p)
            },
        },
{
    let entries = peers.candidates.entries@;
    let done = succeeded(entries);
    lemma_has_answered(peers, p);
    lemma_answers(entries);
    lemma_succeeded_distinct(entries);
    if let PeersKind::Closest { target, num_results } = peers.kind {
        let order = by_distance(done, target);
        let r = peers.results();
        law_by_distance_sorts(done, target);
        lemma_by_distance_distinct(done, target);
        assert forall|i: int, j: int| 0 <= i < j < r.len() implies far(#[trigger] r[i], target)
            <= far(#[trigger] r[j], target) by {
            assert(r[i] == order[i] && r[j] == order[j]);
            lemma_distance_order(peer_distance(order[i], target), peer_distance(order[j], target));
        }
        if r.contains(p) {
            assert(order[r.index_of(p)] == p);
            assert(order.contains(p));
        }
        if done.contains(p) && !r.contains(p) {
            assert(order.contains(p));
            let k = order.index_of(p);
            if k < r.len() {
                assert(r[k] == p);
            }
            assert forall|i: int| 0 <= i < r.len() implies far(#[trigger] r[i], target) <= far(
                p,
                target,
            ) by {
                assert(r[i] == order[i] && order[k] == p);
                lemma_distance_order(peer_distance(order[i], target), peer_distance(p, target));
            }
        }
    }
}

/// Each result of a query comes with the addresses that the query has learned of it, and with
/// none if it has learned none.
pub proof fn law_results_come_with_addresses(peers: QueryPeers, i: int)
    requires
        peers.wf(),
        0 <= i < peers.results().len(),
    ensures
        peers.result_infos().len() == peers.results().len(),
        peers.result_infos()[i].0 == peers.results()[i],
        peers.result_infos()[i].1 == (if peers.addresses@.contains_key(peers.results()[i]) {
            peers.addresses@[peers.results()[i]]@
        } else {
            Seq::empty()
        }),
{
    let entries = peers.addresses.entries@;
    let p = peers.results()[i];
    lemma_addr_views_key(entries, p);
    assert(entries_map(entries).contains_key(p) == has_key(entries, p));
}

////////////////////////////////////////////////////////////////////////////////
// What a query starts from

/// What becomes of a peer that is learned as a candidate.
pub proof fn lemma_learned_state(entries: Seq<(PeerId, PeerState)>, list: Seq<PeerId>, p: PeerId)
    requires
        keys_distinct(entries),
    ensures
        keys_distinct(with_candidates(entries, list)),
        state_of(with_candidates(entries, list), p) == (if has_key(entries, p) {
            state_of(entries, p)
        } else if list.contains(p) {
            Some(PeerState::NotContacted)
        } else {
            None
        }),
    decreases list.len(),
{
    if list.len() > 0 {
        let front = list.drop_last();
        let before = with_candidates(entries, front);
        lemma_learned_state(entries, front, p);
        lemma_with_candidates(entries, front);
        lemma_entries_insert(before, list.last(), PeerState::NotContacted);
        lemma_insert_get(before, list.last(), PeerState::NotContacted, p);
        if list.contains(p) {
            let i = list.index_of(p);
            if i < front.len() {
                assert(front[i] == p);
            }
        }
        if front.contains(p) {
            assert(list[front.index_of(p)] == p);
        }
        assert(list[list.len() - 1] == list.last());
    }
}

/// A new query has the given peers as candidates, none of which was contacted, and no other. It
/// waits for nothing, knows no addresses, and has made no request.
pub proof fn lemma_new_query(
    q: Query,
    id: QueryId,
    info: QueryInfo,
    kind: PeersKind,
    seeds: Seq<PeerId>,
    p: PeerId,
)
    requires
        is_new(q, id, info, kind, seeds),
    ensures
        is_candidate(q.peers, p) <==> seeds.contains(p),
        is_candidate(q.peers, p) ==> q.peers.candidates@[p] == PeerState::NotContacted,
{
    lemma_learned_state(Seq::empty(), seeds, p);
    lemma_state(q.peers, p);
}

/// Another query stays as it is when one is stored.
pub proof fn lemma_others_stay(
    before: QueryPool,
    after: QueryPool,
    id: QueryId,
    q: Query,
    other: QueryId,
)
    requires
        before.wf(),
        after.queries.entries@ == entries_insert(before.queries.entries@, id, q),
    ensures
        after.queries@.contains_key(id),
        query_in(after, id) == q,
        after.queries@[id] == q,
        other != id ==> {
            &&& after.queries@.contains_key(other) <==> before.queries@.contains_key(other)
            &&& after.queries@.contains_key(other) ==> after.queries@[other]
                == before.queries@[other]
        },
{
    let entries = before.queries.entries@;
    lemma_entries_insert(entries, id, q);
    lemma_insert_get(entries, id, q, id);
    assert(entries_map(after.queries.entries@) == entries_map(entries).insert(id, q));
}

/// A search starts from the peers of the routing table that are closest to its target: a peer
/// of the table is a candidate, unless there are twenty that are all at least as close. None was
/// contacted, and there is no other. Other queries go on as they are.
pub proof fn law_search_starts_from_closest_peers(
    before: QueryPool,
    after: QueryPool,
    t: TableView,
    id: QueryId,
    target: KeyBytes,
    p: PeerId,
    other: QueryId,
)
    requires
        before.wf(),
        t.wf(),
        search_started(before, after, t, id, target),
    ensures
        after.queries@.contains_key(id),
        id.0 == before.next_id,
        other != id ==> {
            &&& after.queries@.contains_key(other) <==> before.queries@.contains_key(other)
            &&& after.queries@.contains_key(other) ==> after.queries@[other]
                == before.queries@[other]
        },
        ({
            let q = after.queries@[id];
            &&& q.id == id
            &&& q.peers.kind matches PeersKind::Closest { target: aim, .. } && aim == target
            &&& !q.peers.finished
            &&& q.pending_rpcs@.len() == 0
            &&& q.stats.requests == 0 && q.stats.success == 0 && q.stats.failure == 0
            &&& q.stats.start is None && q.stats.end is None
            &&& is_candidate(q.peers, p) ==> holds(t, p) && is_in(
                q.peers,
                p,
                PeerState::NotContacted,
            )
            &&& holds(t, p) && !is_candidate(q.peers, p) ==> exists|close: Seq<PeerId>| #[trigger]
                all_closer(close, q.peers, target, p) && close.len() == 20
            &&& holds(t, p) && t.nodes.len() <= 20 ==> is_candidate(q.peers, p)
        }),
{
    let info = query_in(after, id).info;
    let kind = closest_kind(before.config, target, info);
    let order = t.closest_peers(target);
    let seeds = seeds_of(order);
    let q = query_in(after, id);
    lemma_others_stay(before, after, id, q, other);
    lemma_new_query(q, id, info, kind, seeds, p);
    let peers = peers_of(t.nodes);
    law_by_distance_sorts(peers, target);
    if holds(t, p) {
        let i = choose|i: int| 0 <= i < t.nodes.len() && (#[trigger] t.nodes[i]).peer == p;
        assert(peers[i] == p);
        assert(order.contains(p));
    }
    if seeds.contains(p) {
        assert(order[seeds.index_of(p)] == p);
        assert(order.contains(p));
        let i = peers.index_of(p);
        assert(t.nodes[i].peer == p);
    }
    if holds(t, p) && !seeds.contains(p) {
        let k = order.index_of(p);
        if k < seeds.len() {
            assert(seeds[k] == p);
        }
        assert(seeds.len() == 20);
        assert(peers.no_duplicates()) by {
            assert forall|i: int, j: int| 0 <= i < peers.len() && 0 <= j < peers.len() && i
                != j implies peers[i] != peers[j] by {
                if i < j {
                    assert(t.nodes[i].key() != t.nodes[j].key());
                } else {
                    assert(t.nodes[j].key() != t.nodes[i].key());
                }
            }
        }
        lemma_by_distance_distinct(peers, target);
        assert forall|i: int| 0 <= i < seeds.len() implies is_candidate(
            q.peers,
            #[trigger] seeds[i],
        ) && far(seeds[i], target) <= far(p, target) by {
            lemma_new_query(q, id, info, kind, seeds, seeds[i]);
            assert(seeds.contains(seeds[i]));
            assert(seeds[i] == order[i] && order[k] == p);
            lemma_distance_order(peer_distance(order[i], target), peer_distance(p, target));
        }
        assert(all_closer(seeds, q.peers, target, p));
    }
}

/// Whether peers are distinct candidates that are all at least as close to a key as another peer.
pub open spec fn all_closer(
    close: Seq<PeerId>,
    peers: QueryPeers,
    target: KeyBytes,
    p: PeerId,
) -> bool {
    &&& close.no_duplicates()
    &&& forall|i: int|
        0 <= i < close.len() ==> is_candidate(peers, #[trigger] close[i]) && far(close[i], target)
            <= far(p, target)
}

/// Whether a query was started under the next number, as a search for a number of peers closest
/// to a key.
pub open spec fn searches(
    before: QueryPool,
    after: QueryPool,
    t: TableView,
    id: QueryId,
    bytes: Seq<u8>,
    results: int,
) -> bool {
    &&& search_started(before, after, t, id, key_of_bytes(bytes))
    &&& after.queries@.contains_key(id)
    &&& after.queries@[id].peers.kind matches PeersKind::Closest { target, num_results } && target
        == key_of_bytes(bytes) && num_results@ == results
}

/// A search for the closest peers is one for the key that was given, and for as many results as
/// were asked for, or else as records are replicated. Nothing else changes.
pub proof fn law_closest_peers_are_sought<S>(
    before: Behaviour<S>,
    after: Behaviour<S>,
    key: Vec<u8>,
    number: Option<NonZeroUsize>,
    id: QueryId,
)
    requires
        before.wf(),
        closest_sought(before, after, key, number, id),
    ensures
        searches(
            before.queries,
            after.queries,
            before.kbuckets@,
            id,
            key@,
            match number {
                Some(n) => n@ as int,
                None => before.queries.config.replication_factor@ as int,
            },
        ),
        after.queries@[id].info matches QueryInfo::GetClosestPeers {
            key: k,
            step,
            num_results,
        } && k@ == key@ && num_results == number && step.count@ == 1 && !step.last,
        after.queued_events == before.queued_events,
        after.store == before.store,
        after.kbuckets == before.kbuckets,
{
    lemma_others_stay(before.queries, after.queries, id, query_in(after.queries, id), id);
}

/// A search for a given number of the closest peers is for that number, but for no more than
/// twenty.
pub proof fn law_given_number_is_sought<S>(
    before: Behaviour<S>,
    after: Behaviour<S>,
    key: Vec<u8>,
    number: usize,
    id: QueryId,
)
    requires
        before.wf(),
        n_closest_sought(before, after, key, number, id),
    ensures
        searches(
            before.queries,
            after.queries,
            before.kbuckets@,
            id,
            key@,
            if number < 20 {
                number as int
            } else {
                20
            },
        ),
        after.queries@[id].info matches QueryInfo::GetClosestPeers { key: k, step, .. } && k == key
            && step.count@ == 1 && !step.last,
        after == (Behaviour { queries: after.queries, ..before }),
{
    lemma_others_stay(before.queries, after.queries, id, query_in(after.queries, id), id);
}

/// A search for a record is one for its key, and for as many peers as records are replicated
/// at. It counts as successful from the start if the record was found locally.
pub proof fn law_record_is_sought<S: RecordStore>(
    before: Behaviour<S>,
    after: Behaviour<S>,
    key: Key,
    got: Option<Record>,
    now: Moment,
    id: QueryId,
)
    requires
        before.wf(),
        record_sought(before, after, key, got, now, id),
    ensures
        searches(
            before.queries,
            after.queries,
            before.kbuckets@,
            id,
            key@,
            before.queries.config.replication_factor@ as int,
        ),
        after.queries@[id].info matches QueryInfo::GetRecord {
            key: k,
            step,
            found_a_record,
            cache_candidates,
        } && k == key && !step.last && cache_candidates@.len() == 0 && found_a_record == (
        after.queued_events@.len() > before.queued_events@.len()) && step.count@ == 1
            + after.queued_events@.len() - before.queued_events@.len(),
        after.kbuckets == before.kbuckets,
        after.put_record_job == before.put_record_job,
{
    lemma_others_stay(before.queries, after.queries, id, query_in(after.queries, id), id);
}

/// A search for providers is one for the key that they provide, and for as many peers as records
/// are replicated at.
pub proof fn law_providers_are_sought<S>(
    before: Behaviour<S>,
    after: Behaviour<S>,
    key: Key,
    records: Seq<ProviderRecord>,
    now: Moment,
    id: QueryId,
)
    requires
        before.wf(),
        providers_sought(before, after, key, records, now, id),
    ensures
        searches(
            before.queries,
            after.queries,
            before.kbuckets@,
            id,
            key@,
            before.queries.config.replication_factor@ as int,
        ),
        after.queries@[id].info matches QueryInfo::GetProviders { key: k, step, .. } && k == key
            && !step.last && step.count@ == 1 + after.queued_events@.len()
            - before.queued_events@.len(),
        after.kbuckets == before.kbuckets,
        after.store == before.store,
{
    lemma_others_stay(before.queries, after.queries, id, query_in(after.queries, id), id);
}

/// The announcement of a provider, and the storing of a record, start with a search for the peers
/// closest to the key, as many as records are replicated at.
pub proof fn law_closest_peers_come_first<S>(
    before: Behaviour<S>,
    announcing: Behaviour<S>,
    storing: Behaviour<S>,
    key: Key,
    why: AddProviderContext,
    record: Record,
    quorum: Quorum,
    context: PutRecordContext,
    id: QueryId,
)
    requires
        before.wf(),
        announcement_started(before, announcing, key, why, id),
        put_started(before, storing, record, quorum, context, id),
    ensures
        searches(
            before.queries,
            announcing.queries,
            before.kbuckets@,
            id,
            key@,
            before.queries.config.replication_factor@ as int,
        ),
        announcing.queries@[id].info matches QueryInfo::AddProvider { key: k, phase, context: c }
            && k == key && phase is GetClosestPeers && c == why,
        announcing == (Behaviour { queries: announcing.queries, ..before }),
        searches(
            before.queries,
            storing.queries,
            before.kbuckets@,
            id,
            record.key@,
            before.queries.config.replication_factor@ as int,
        ),
        storing.queries@[id].info matches QueryInfo::PutRecord {
            record: r,
            quorum: q,
            phase,
            context: c,
        } && r == record && phase is GetClosestPeers && c == context && is_quorum(
            quorum,
            before.queries.config.replication_factor@ as int,
            q@ as int,
        ),
        storing == (Behaviour { queries: storing.queries, ..before }),
{
    lemma_others_stay(before.queries, announcing.queries, id, query_in(announcing.queries, id), id);
    lemma_others_stay(before.queries, storing.queries, id, query_in(storing.queries, id), id);
}

/// Whether a number of peers is what a quorum asks for, out of a total: one; more than half, and
/// no more than that takes; all; or a given number, as far as there are so many.
pub open spec fn is_quorum(quorum: Quorum, total: int, n: int) -> bool {
    match quorum {
        Quorum::One => n == 1,
        Quorum::Majority => 2 * n > total && 2 * (n - 1) <= total,
        Quorum::All => n == total,
        Quorum::N(k) => (n == k@ && k@ <= total) || (n == total && total < k@),
    }
}

/// A bootstrap starts with a search for the local peer, if the routing table holds a peer, and
/// fails otherwise.
pub proof fn law_bootstrap_looks_for_itself<S>(
    before: Behaviour<S>,
    after: Behaviour<S>,
    r: Result<QueryId, NoKnownPeers>,
    p: PeerId,
)
    requires
        before.wf(),
        bootstrap_started(before, after, r),
    ensures
        holds(before.kbuckets@, p) ==> r is Ok,
        r matches Ok(id) ==> {
            &&& searches(
                before.queries,
                after.queries,
                before.kbuckets@,
                id,
                peer_id_bytes(before.local_peer_id),
                before.queries.config.replication_factor@ as int,
            )
            &&& after.queries@[id].info matches QueryInfo::Bootstrap { peer, remaining, step }
                && peer == before.local_peer_id && remaining is None && step.count@ == 1
                && !step.last
            &&& exists|q: PeerId| holds(before.kbuckets@, q)
            &&& after.bootstrap_status.signals@ == before.bootstrap_status.signals@.push(
                Signal::Started,
            )
        },
        r is Err ==> after.queries == before.queries && after.bootstrap_status.signals@
            == before.bootstrap_status.signals@.push(Signal::ResetTimers),
        after.queued_events == before.queued_events,
        after.kbuckets == before.kbuckets,
        after.store == before.store,
{
    if let Ok(id) = r {
        lemma_others_stay(before.queries, after.queries, id, query_in(after.queries, id), id);
        assert(holds(before.kbuckets@, before.kbuckets@.nodes[0].peer));
    }
}

/// The storing of a record at given peers contacts them all and no other, without a search. The
/// quorum is that of the distinct ones among them.
pub proof fn law_record_is_stored_at_given_peers<S>(
    before: Behaviour<S>,
    after: Behaviour<S>,
    record: Record,
    peers: Seq<PeerId>,
    quorum: Quorum,
    now: Moment,
    id: QueryId,
    p: PeerId,
)
    requires
        before.wf(),
        put_to_started(before, after, record, peers, quorum, now, id),
        now.nanos <= MAX_ELAPSED,
    ensures
        after.queries@.contains_key(id),
        id.0 == before.queries.next_id,
        ({
            let q = after.queries@[id];
            &&& q.peers.kind is Fixed
            &&& is_candidate(q.peers, p) <==> peers.contains(p)
            &&& is_candidate(q.peers, p) ==> is_in(q.peers, p, PeerState::NotContacted)
            &&& q.info matches QueryInfo::PutRecord { record: r, quorum: n, phase, context } && {
                &&& r.key == record.key && r.value == record.value && r.publisher
                    == record.publisher
                &&& lives_until(record.expires, before.record_ttl, now, r.expires)
                &&& context == PutRecordContext::Custom
                &&& phase matches PutRecordPhase::PutRecord { success, .. } && success@.len() == 0
                &&& peers.len() > 0 ==> is_quorum(quorum, peers.to_set().len() as int, n@ as int)
                &&& peers.len() == 0 ==> n@ == 1
            }
        }),
        after == (Behaviour { queries: after.queries, ..before }),
{
    let q = query_in(after.queries, id);
    lemma_others_stay(before.queries, after.queries, id, q, id);
    lemma_new_query(q, id, q.info, PeersKind::Fixed, peers, p);
    lemma_span(before.record_ttl);
}

/// Whether a record that is published now expires as it says itself, or else when its time to
/// live is over, and never only if neither is given.
pub open spec fn lives_until(
    own: Option<Moment>,
    ttl: Option<Duration>,
    now: Moment,
    until: Option<Moment>,
) -> bool {
    &&& own is Some ==> until == own
    &&& own is None && ttl is Some ==> (until matches Some(t) && t.nanos == now.nanos + ttl->0@)
    &&& own is None && ttl is None ==> until is None
}

/// A time to live can be added to any point in time.
pub proof fn lemma_span(ttl: Option<Duration>)
    ensures
        ttl matches Some(d) ==> d@ <= u64::MAX * 1_000_000_000 + u32::MAX,
{
}

////////////////////////////////////////////////////////////////////////////////
// What answers change

/// Whether a query has taken in an answer of a peer that names others. A peer that was asked has
/// answered; each peer that it names, other than the local one, becomes a candidate of a search
/// if it was none; and every other candidate stays as it is. An answer that was not asked for
/// changes no candidate.
pub open spec fn takes_in(
    q: Query,
    q2: Query,
    source: PeerId,
    list: Seq<KadPeerView>,
    local: PeerId,
    p: PeerId,
) -> bool {
    &&& q2.id == q.id
    &&& q2.peers.kind == q.peers.kind
    &&& q2.pending_rpcs == q.pending_rpcs
    &&& is_in(q.peers, source, PeerState::Waiting) ==> {
        &&& is_in(q2.peers, source, PeerState::Succeeded)
        &&& p != source && is_candidate(q.peers, p) ==> is_in(q2.peers, p, q.peers.candidates@[p])
        &&& p != source && !is_candidate(q.peers, p) ==> {
            &&& is_candidate(q2.peers, p) <==> q.peers.kind is Closest && p != local && names(
                list,
                p,
            )
            &&& is_candidate(q2.peers, p) ==> is_in(q2.peers, p, PeerState::NotContacted)
        }
        &&& q2.stats.success == (if q.stats.success == u32::MAX {
            u32::MAX as int
        } else {
            q.stats.success + 1
        })
        &&& q2.stats == (QueryStats { success: q2.stats.success, ..q.stats })
    }
    &&& !is_in(q.peers, source, PeerState::Waiting) ==> {
        &&& q2.peers.candidates == q.peers.candidates
        &&& q2.stats == q.stats
    }
}

/// The peers of a list other than the local one are those that it names.
proof fn lemma_others_named(list: Seq<KadPeerView>, local: PeerId, p: PeerId)
    ensures
        named(others(list, local)).contains(p) <==> p != local && names(list, p),
{
    let f = |x: KadPeerView| x.peer != local;
    let kept = others(list, local);
    assert(kept == list.filter(f));
    let all = named(kept);
    if all.contains(p) {
        let i = all.index_of(p);
        let x = kept[i];
        lemma_filtered(list, f, x);
        assert(kept.contains(x));
        let j = list.index_of(x);
        assert(list[j].peer == p);
    }
    if p != local && names(list, p) {
        let i = choose|i: int| 0 <= i < list.len() && (#[trigger] list[i]).peer == p;
        lemma_filtered(list, f, list[i]);
        assert(list.contains(list[i]));
        let k = kept.index_of(list[i]);
        assert(all[k] == p);
    }
}

/// What an answer with peers changes: the query that it belongs to takes it in, and every other
/// one stays as it is.
pub proof fn law_answer_is_taken_in<S: RecordStore>(
    before: Behaviour<S>,
    after: Behaviour<S>,
    source: PeerId,
    connection: ConnectionId,
    event: HandlerEvent,
    now: Moment,
    id: QueryId,
    p: PeerId,
    other: QueryId,
)
    requires
        before.wf(),
        event_handled(before, after, source, connection, event, now),
        query_of(event) == Some(id),
    ensures
        after.queries@.contains_key(other) <==> before.queries@.contains_key(other),
        other != id && before.queries@.contains_key(other) ==> after.queries@[other]
            == before.queries@[other],
        before.queries@.contains_key(id) ==> takes_in(
            before.queries@[id],
            after.queries@[id],
            source,
            peers_in(event),
            before.local_peer_id,
            p,
        ) && after.queries@[id].peers.finished == before.queries@[id].peers.finished,
        after.kbuckets == before.kbuckets,
        after.store == before.store,
{
    let entries = before.queries.queries.entries@;
    let local = before.local_peer_id;
    let list = peers_in(event);
    assert(entries_map(entries).contains_key(id) == has_key(entries, id));
    if has_key(entries, id) {
        let at = key_index(entries, id);
        let q = entries[at].1;
        let q2 = after.queries.queries.entries@[at].1;
        assert(q.wf());
        lemma_others_stay(before.queries, after.queries, id, q2, other);
        lemma_others_stay(before.queries, after.queries, id, q2, id);
        let closer = named(others(list, local));
        lemma_others_named(list, local, p);
        let q0 = Query {
            info: q2.info,
            peers: QueryPeers { addresses: q2.peers.addresses, ..q.peers },
            ..q
        };
        let q1 = Query {
            peers: QueryPeers { addresses: q2.peers.addresses, ..q.peers },
            ..q
        };
        assert(answered(q0, q2, source, closer) || answered(
            q1,
            Query { info: q.info, ..q2 },
            source,
            closer,
        ));
        lemma_taken_in(q, q2, source, closer, p);
    }
}

/// An answer changes the candidates of a query whatever else it changes.
proof fn lemma_taken_in(q: Query, q2: Query, source: PeerId, closer: Seq<PeerId>, p: PeerId)
    requires
        q.wf(),
        answered(
            Query {
                info: q2.info,
                peers: QueryPeers { addresses: q2.peers.addresses, ..q.peers },
                ..q
            },
            q2,
            source,
            closer,
        ) || answered(
            Query { peers: QueryPeers { addresses: q2.peers.addresses, ..q.peers }, ..q },
            Query { info: q.info, ..q2 },
            source,
            closer,
        ),
    ensures
        q2.id == q.id,
        q2.peers.kind == q.peers.kind,
        q2.peers.finished == q.peers.finished,
        q2.pending_rpcs == q.pending_rpcs,
        is_in(q.peers, source, PeerState::Waiting) ==> {
            &&& is_in(q2.peers, source, PeerState::Succeeded)
            &&& p != source && is_candidate(q.peers, p) ==> is_in(
                q2.peers,
                p,
                q.peers.candidates@[p],
            )
            &&& p != source && !is_candidate(q.peers, p) ==> {
                &&& is_candidate(q2.peers, p) <==> q.peers.kind is Closest && closer.contains(p)
                &&& is_candidate(q2.peers, p) ==> is_in(q2.peers, p, PeerState::NotContacted)
            }
            &&& q2.stats.success == (if q.stats.success == u32::MAX {
                u32::MAX as int
            } else {
                q.stats.success + 1
            })
            &&& q2.stats == (QueryStats { success: q2.stats.success, ..q.stats })
        },
        !is_in(q.peers, source, PeerState::Waiting) ==> {
            &&& q2.peers.candidates == q.peers.candidates
            &&& q2.stats == q.stats
        },
{
    let entries = q.peers.candidates.entries@;
    lemma_state(q.peers, source);
    lemma_state(q.peers, p);
    lemma_state(q2.peers, source);
    lemma_state(q2.peers, p);
    let marked = entries_insert(entries, source, PeerState::Succeeded);
    lemma_entries_insert(entries, source, PeerState::Succeeded);
    lemma_insert_get(entries, source, PeerState::Succeeded, source);
    lemma_insert_get(entries, source, PeerState::Succeeded, p);
    lemma_learned_state(marked, closer, p);
    lemma_learned_state(marked, closer, source);
}

} // verus!
