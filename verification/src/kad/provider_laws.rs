//! Laws on what searches for providers report.

use libp2p_core::Multiaddr;
use libp2p_identity::PeerId;
use libp2p_swarm::ConnectionId;
use vstd::prelude::*;

use crate::assoc::entries_insert;
use crate::assoc::entries_map;
use crate::assoc::entries_remove;
use crate::assoc::has_key;
use crate::assoc::key_index;
use crate::assoc::keys_distinct;
use crate::assoc::lemma_entries_insert;
use crate::assoc::lemma_entries_remove;
use crate::assoc::lemma_insert_get;
use crate::assoc::lemma_key_index;
use crate::kad::answers::one_query;
use crate::kad::answers::others;
use crate::kad::answers::peers_named;
use crate::kad::behaviour::Behaviour;
use crate::kad::behaviour::Request;
use crate::kad::bootstrap::Status;
use crate::kad::connections::addresses_failure;
use crate::kad::connections::news_handled;
use crate::kad::connections::unreachable_addresses;
use crate::kad::events::AddProviderContext;
use crate::kad::events::Event;
use crate::kad::events::GetProvidersOk;
use crate::kad::events::NoKnownPeers;
use crate::kad::events::QueryInfo;
use crate::kad::events::QueryResult;
use crate::kad::events::Quorum;
use crate::kad::handles::runs;
use crate::kad::inbound::event_handled;
use crate::kad::inbound::providers_named;
use crate::kad::inbound::record_answered;
use crate::kad::jobs::JOBS_MAX_NEW_QUERIES;
use crate::kad::kbucket::TableView;
use crate::kad::key::key_of_bytes;
use crate::kad::key::key_of_peer;
use crate::kad::key::KeyBytes;
use crate::kad::lookups::announcement_started;
use crate::kad::lookups::bootstrap_started;
use crate::kad::lookups::keys_of;
use crate::kad::lookups::put_started;
use crate::kad::lookups::query_in;
use crate::kad::lookups::search_started;
use crate::kad::operations::performed;
use crate::kad::operations::Operation;
use crate::kad::poll::allowed;
use crate::kad::poll::announced_each;
use crate::kad::poll::background_run;
use crate::kad::poll::capacity;
use crate::kad::poll::decision_handled;
use crate::kad::poll::drained;
use crate::kad::poll::jobs_run;
use crate::kad::poll::lesser;
use crate::kad::poll::polled;
use crate::kad::poll::providers_ready;
use crate::kad::poll::providers_taken;
use crate::kad::poll::records_ready;
use crate::kad::poll::records_taken;
use crate::kad::poll::room_after;
use crate::kad::poll::stored_each;
use crate::kad::poll::turn_context;
use crate::kad::poll::PollInput;
use crate::kad::poll::PollOutput;
use crate::kad::pool::address_dropped;
use crate::kad::pool::address_swapped;
use crate::kad::pool::each_query;
use crate::kad::pool::peer_failed;
use crate::kad::pool::rpc_taken;
use crate::kad::protocol::kad_peers;
use crate::kad::protocol::HandlerEvent;
use crate::kad::protocol::QueryId;
use crate::kad::query::addr_views;
use crate::kad::query::closest_kind;
use crate::kad::query::pool_added;
use crate::kad::query::pool_polled;
use crate::kad::query::seeds_of;
use crate::kad::query::LookupStep;
use crate::kad::query::PeersKind;
use crate::kad::query::PoolState;
use crate::kad::query::Query;
use crate::kad::query::QueryPeers;
use crate::kad::query::QueryPool;
use crate::kad::record::ProviderRecord;
use crate::kad::record::Record;
use crate::kad::record::RecordStore;
use crate::kad::replies::lemma_new_providers;
use crate::kad::replies::new_providers;
use crate::kad::replies::stored_at;
use crate::kad::routing::address_failure;
use crate::swarm::FromSwarm;
use crate::swarm::ToSwarm;
use crate::time::Moment;

verus! {

/// Whether a request reports a provider that a query has found.
pub open spec fn reports_provider(request: Request, query: QueryId, p: PeerId) -> bool {
    request matches ToSwarm::GenerateEvent(
        Event::OutboundQueryProgressed {
            id,
            result: QueryResult::GetProviders(
                Ok(GetProvidersOk::FoundProviders { providers, .. }),
            ),
            ..
        },
    ) && id == query && has_key(providers.entries@, p)
}

/// Whether a query is a running search for providers that has reported a provider.
pub open spec fn has_reported(pool: QueryPool, id: QueryId, p: PeerId) -> bool {
    &&& has_key(pool.queries.entries@, id)
    &&& query_in(pool, id).info matches QueryInfo::GetProviders { reported, .. }
        && reported@.contains(p)
}

/// Whether a query, if it is running, is a search for providers that has reported a provider.
pub open spec fn reported_if_running(pool: QueryPool, id: QueryId, p: PeerId) -> bool {
    has_key(pool.queries.entries@, id) ==> has_reported(pool, id, p)
}

/// Whether a number is among those that are given to queries while the number of the next query
/// goes from `from` to `to`. After the largest number comes zero.
pub open spec fn handed_out(from: usize, to: usize, n: usize) -> bool {
    if from <= to {
        from <= n < to
    } else {
        from <= n || n < to
    }
}

/// Whether something that is done to a behaviour gives the number of a query to a new one.
pub open spec fn gives_away<S>(before: Behaviour<S>, after: Behaviour<S>, id: QueryId) -> bool {
    handed_out(before.queries.next_id, after.queries.next_id, id.0)
}

/// Whether a provider is reported in what has come to a queue.
pub open spec fn queues_report(
    before: Seq<Request>,
    after: Seq<Request>,
    id: QueryId,
    p: PeerId,
) -> bool {
    exists|i: int| before.len() <= i < after.len() && reports_provider(#[trigger] after[i], id, p)
}

/// Whether something that is done to a behaviour makes a report of a provider: it queues one, or
/// yields one that was not the first in the queue.
pub open spec fn makes_report<S>(
    before: Behaviour<S>,
    after: Behaviour<S>,
    op: Operation,
    id: QueryId,
    p: PeerId,
) -> bool {
    ||| queues_report(before.queued_events@, after.queued_events@, id, p)
    ||| op matches Operation::Poll { output: PollOutput::Ready(request), .. } && reports_provider(
        request,
        id,
        p,
    ) && !(before.queued_events@.len() > 0 && request == before.queued_events@[0])
}

/// The number that comes `k` after another one.
spec fn ahead(from: usize, k: int) -> int {
    if from + k <= usize::MAX {
        from + k
    } else {
        from + k - usize::MAX - 1
    }
}

/// A query that changes without forgetting what it has reported, and every other one, keep it.
proof fn lemma_put_keeps_reports(
    before: QueryPool,
    after: QueryPool,
    other: QueryId,
    q: Query,
    id: QueryId,
    p: PeerId,
)
    requires
        keys_distinct(before.queries.entries@),
        after.queries.entries@ == entries_insert(before.queries.entries@, other, q),
        reported_if_running(before, id, p),
        id == other ==> (q.info matches QueryInfo::GetProviders { reported, .. }
            && reported@.contains(p)),
    ensures
        keys_distinct(after.queries.entries@),
        reported_if_running(after, id, p),
{
    lemma_entries_insert(before.queries.entries@, other, q);
    lemma_insert_get(before.queries.entries@, other, q, id);
}

/// A change of one query that keeps what it is about keeps what it has reported.
proof fn lemma_one_keeps_reports(
    before: QueryPool,
    after: QueryPool,
    other: QueryId,
    change: spec_fn(Query, Query) -> bool,
    id: QueryId,
    p: PeerId,
)
    requires
        keys_distinct(before.queries.entries@),
        one_query(before, after, other, change),
        forall|q: Query, q2: Query| #[trigger]
            change(q, q2) ==> (q.info matches QueryInfo::GetProviders { reported, .. } ==> (
            q2.info matches QueryInfo::GetProviders { reported: r2, .. } && reported@.is_prefix_of(
                r2@,
            ))),
        reported_if_running(before, id, p),
    ensures
        keys_distinct(after.queries.entries@),
        reported_if_running(after, id, p),
{
    let entries = before.queries.entries@;
    if has_key(entries, other) {
        let q = entries[key_index(entries, other)].1;
        let q2 = after.queries.entries@[key_index(entries, other)].1;
        assert(change(q, q2));
        if id == other {
            let known = q.info->GetProviders_reported@;
            let later = q2.info->GetProviders_reported@;
            let i = known.index_of(p);
            assert(later[i] == p) by {
                assert(known =~= later.subrange(0, known.len() as int));
            }
        }
        lemma_put_keeps_reports(before, after, other, q2, id, p);
    }
}

/// A new query under another number keeps what was reported.
proof fn lemma_start_keeps_reports(
    before: QueryPool,
    after: QueryPool,
    other: QueryId,
    info: QueryInfo,
    kind: PeersKind,
    seeds: Seq<PeerId>,
    id: QueryId,
    p: PeerId,
)
    requires
        keys_distinct(before.queries.entries@),
        pool_added(before, after, other, info, kind, seeds),
        reported_if_running(before, id, p),
        id.0 != before.next_id,
    ensures
        keys_distinct(after.queries.entries@),
        reported_if_running(after, id, p),
{
    lemma_put_keeps_reports(before, after, other, query_in(after, other), id, p);
}

/// A new search for the peers closest to a key, under another number, keeps what was reported.
proof fn lemma_search_keeps_reports(
    before: QueryPool,
    after: QueryPool,
    t: TableView,
    other: QueryId,
    target: KeyBytes,
    id: QueryId,
    p: PeerId,
)
    requires
        keys_distinct(before.queries.entries@),
        search_started(before, after, t, other, target),
        reported_if_running(before, id, p),
        id.0 != before.next_id,
    ensures
        keys_distinct(after.queries.entries@),
        reported_if_running(after, id, p),
{
    let info = query_in(after, other).info;
    lemma_start_keeps_reports(
        before,
        after,
        other,
        info,
        closest_kind(before.config, target, info),
        seeds_of(t.closest_peers(target)),
        id,
        p,
    );
}

/// What a query has reported is kept when a query is removed.
proof fn lemma_removal_keeps_reports(
    before: QueryPool,
    after: QueryPool,
    other: QueryId,
    id: QueryId,
    p: PeerId,
)
    requires
        keys_distinct(before.queries.entries@),
        after.queries.entries@ == entries_remove(before.queries.entries@, other),
        reported_if_running(before, id, p),
    ensures
        keys_distinct(after.queries.entries@),
        reported_if_running(after, id, p),
{
    let entries = before.queries.entries@;
    let left = after.queries.entries@;
    lemma_entries_remove(entries, other);
    assert(entries_map(left) == entries_map(entries).remove(other));
    assert(entries_map(entries).dom().contains(id) == has_key(entries, id));
    assert(entries_map(left).dom().contains(id) == has_key(left, id));
    if has_key(left, id) {
        assert(entries_map(left)[id] == entries_map(entries)[id]);
    }
}

/// A change of every query that leaves alone what they are about keeps what they have reported.
proof fn lemma_each_keeps_reports(
    before: QueryPool,
    after: QueryPool,
    change: spec_fn(Query, Query) -> bool,
    id: QueryId,
    p: PeerId,
)
    requires
        keys_distinct(before.queries.entries@),
        each_query(before, after, change),
        forall|q: Query, q2: Query| #[trigger] change(q, q2) ==> q2.info == q.info,
        reported_if_running(before, id, p),
    ensures
        keys_distinct(after.queries.entries@),
        reported_if_running(after, id, p),
{
    let entries = before.queries.entries@;
    let later = after.queries.entries@;
    assert forall|i: int, j: int| 0 <= i < j < later.len() implies (#[trigger] later[i]).0 != (
    #[trigger] later[j]).0 by {
        assert(later[i].0 == entries[i].0 && later[j].0 == entries[j].0);
    }
    if has_key(later, id) {
        let at = key_index(later, id);
        assert(later[at].0 == entries[at].0 && change(entries[at].1, later[at].1));
        lemma_key_index(entries, at);
    }
}

/// Addresses that fail keep what the queries have reported.
proof fn lemma_failures_keep_reports<S>(
    before: Behaviour<S>,
    after: Behaviour<S>,
    peer: PeerId,
    addrs: Seq<Multiaddr>,
    id: QueryId,
    p: PeerId,
)
    requires
        keys_distinct(before.queries.queries.entries@),
        addresses_failure(before, after, peer, addrs),
        reported_if_running(before.queries, id, p),
    ensures
        keys_distinct(after.queries.queries.entries@),
        reported_if_running(after.queries, id, p),
    decreases addrs.len(),
{
    if addrs.len() > 0 {
        let mid = choose|mid: Behaviour<S>|
            addresses_failure(before, mid, peer, addrs.drop_last()) && #[trigger] address_failure(
                mid,
                after,
                peer,
                addrs.last(),
            );
        lemma_failures_keep_reports(before, mid, peer, addrs.drop_last(), id, p);
        lemma_each_keeps_reports(
            mid.queries,
            after.queries,
            address_dropped(peer, addrs.last()),
            id,
            p,
        );
    }
}

/// What the swarm tells keeps what the queries have reported.
proof fn lemma_news_keep_reports<S>(
    before: Behaviour<S>,
    after: Behaviour<S>,
    event: FromSwarm,
    id: QueryId,
    p: PeerId,
)
    requires
        before.wf(),
        news_handled(before, after, event),
        reported_if_running(before.queries, id, p),
    ensures
        reported_if_running(after.queries, id, p),
{
    match event {
        FromSwarm::ConnectionEstablished { peer_id, failed_addresses, other_established } => {
            let mid = choose|mid: Behaviour<S>| #[trigger]
                addresses_failure(before, mid, peer_id, failed_addresses@)
                    && after.queries == mid.queries;
            lemma_failures_keep_reports(before, mid, peer_id, failed_addresses@, id, p);
        },
        FromSwarm::ConnectionClosed { peer_id, remaining_established, .. } => {
            if remaining_established == 0 {
                lemma_each_keeps_reports(
                    before.queries,
                    after.queries,
                    peer_failed(peer_id),
                    id,
                    p,
                );
            }
        },
        FromSwarm::AddressChange { peer_id, old: o, new: n } => {
            lemma_each_keeps_reports(
                before.queries,
                after.queries,
                address_swapped(peer_id, o.remote_address(), n.remote_address()),
                id,
                p,
            );
        },
        FromSwarm::DialFailure { peer_id: Some(peer), error, .. } => {
            if !(error is DialPeerConditionFalse) {
                let addrs = unreachable_addresses(error);
                let mid = choose|mid: Behaviour<S>| #[trigger]
                    addresses_failure(before, mid, peer, addrs) && each_query(
                        mid.queries,
                        after.queries,
                        peer_failed(peer),
                    );
                lemma_failures_keep_reports(before, mid, peer, addrs, id, p);
                lemma_each_keeps_reports(mid.queries, after.queries, peer_failed(peer), id, p);
            }
        },
        _ => {},
    }
}

/// What a connection handler reports keeps what the queries have reported.
proof fn lemma_events_keep_reports<S: RecordStore>(
    before: Behaviour<S>,
    after: Behaviour<S>,
    source: PeerId,
    connection: ConnectionId,
    event: HandlerEvent,
    now: Moment,
    id: QueryId,
    p: PeerId,
)
    requires
        before.wf(),
        event_handled(before, after, source, connection, event, now),
        reported_if_running(before.queries, id, p),
    ensures
        reported_if_running(after.queries, id, p),
{
    let local = before.local_peer_id;
    match event {
        HandlerEvent::FindNodeRes { closer_peers, query_id } => {
            lemma_one_keeps_reports(
                before.queries,
                after.queries,
                query_id,
                peers_named(source, others(kad_peers(closer_peers@), local)),
                id,
                p,
            );
        },
        HandlerEvent::GetProvidersRes { closer_peers, provider_peers, query_id } => {
            let closer = kad_peers(closer_peers@);
            let providers = kad_peers(provider_peers@);
            lemma_one_keeps_reports(
                before.queries,
                after.queries,
                query_id,
                providers_named(source, others(closer + providers, local), providers),
                id,
                p,
            );
        },
        HandlerEvent::GetRecordRes { record, closer_peers, query_id } => {
            lemma_one_keeps_reports(
                before.queries,
                after.queries,
                query_id,
                record_answered(
                    source,
                    others(kad_peers(closer_peers@), local),
                    record is Some,
                    before.caching,
                ),
                id,
                p,
            );
        },
        HandlerEvent::PutRecordRes { query_id } => {
            lemma_one_keeps_reports(
                before.queries,
                after.queries,
                query_id,
                stored_at(source),
                id,
                p,
            );
        },
        HandlerEvent::QueryError { query_id, .. } => {
            lemma_one_keeps_reports(
                before.queries,
                after.queries,
                query_id,
                peer_failed(source),
                id,
                p,
            );
        },
        _ => {},
    }
}

/// How many numbers the repeated announcement of providers gives away.
proof fn lemma_announced_each_numbers<S>(
    before: Behaviour<S>,
    after: Behaviour<S>,
    records: Seq<ProviderRecord>,
)
    requires
        announced_each(before, after, records),
        records.len() <= JOBS_MAX_NEW_QUERIES,
    ensures
        after.queries.next_id == ahead(before.queries.next_id, records.len() as int),
        after == (Behaviour { queries: after.queries, ..before }),
    decreases records.len(),
{
    if records.len() > 0 {
        let (mid, other) = choose|mid: Behaviour<S>, other: QueryId|
            announced_each(before, mid, records.drop_last()) && #[trigger] announcement_started(
                mid,
                after,
                records.last().key,
                AddProviderContext::Republish,
                other,
            );
        lemma_announced_each_numbers(before, mid, records.drop_last());
    }
}

/// What other queries have reported is kept by the repeated announcement of providers.
proof fn lemma_announced_each_keeps_reports<S>(
    before: Behaviour<S>,
    after: Behaviour<S>,
    records: Seq<ProviderRecord>,
    id: QueryId,
    p: PeerId,
)
    requires
        keys_distinct(before.queries.queries.entries@),
        announced_each(before, after, records),
        records.len() <= JOBS_MAX_NEW_QUERIES,
        reported_if_running(before.queries, id, p),
        forall|k: int|
            0 <= k < records.len() ==> id.0 != #[trigger] ahead(before.queries.next_id, k),
    ensures
        keys_distinct(after.queries.queries.entries@),
        reported_if_running(after.queries, id, p),
    decreases records.len(),
{
    if records.len() > 0 {
        let (mid, other) = choose|mid: Behaviour<S>, other: QueryId|
            announced_each(before, mid, records.drop_last()) && #[trigger] announcement_started(
                mid,
                after,
                records.last().key,
                AddProviderContext::Republish,
                other,
            );
        lemma_announced_each_keeps_reports(before, mid, records.drop_last(), id, p);
        lemma_announced_each_numbers(before, mid, records.drop_last());
        assert(id.0 != ahead(before.queries.next_id, records.len() - 1));
        lemma_search_keeps_reports(
            mid.queries,
            after.queries,
            mid.kbuckets@,
            other,
            key_of_bytes(records.last().key@),
            id,
            p,
        );
    }
}

/// How many numbers the repeated storing of records gives away.
proof fn lemma_stored_each_numbers<S>(before: Behaviour<S>, after: Behaviour<S>, records: Seq<Record>)
    requires
        stored_each(before, after, records),
        records.len() <= JOBS_MAX_NEW_QUERIES,
    ensures
        after.queries.next_id == ahead(before.queries.next_id, records.len() as int),
        after == (Behaviour { queries: after.queries, ..before }),
    decreases records.len(),
{
    if records.len() > 0 {
        let (mid, other) = choose|mid: Behaviour<S>, other: QueryId|
            stored_each(before, mid, records.drop_last()) && #[trigger] put_started(
                mid,
                after,
                records.last(),
                Quorum::All,
                turn_context(records.last(), before.local_peer_id),
                other,
            );
        lemma_stored_each_numbers(before, mid, records.drop_last());
    }
}

/// What other queries have reported is kept by the repeated storing of records.
proof fn lemma_stored_each_keeps_reports<S>(
    before: Behaviour<S>,
    after: Behaviour<S>,
    records: Seq<Record>,
    id: QueryId,
    p: PeerId,
)
    requires
        keys_distinct(before.queries.queries.entries@),
        stored_each(before, after, records),
        records.len() <= JOBS_MAX_NEW_QUERIES,
        reported_if_running(before.queries, id, p),
        forall|k: int|
            0 <= k < records.len() ==> id.0 != #[trigger] ahead(before.queries.next_id, k),
    ensures
        keys_distinct(after.queries.queries.entries@),
        reported_if_running(after.queries, id, p),
    decreases records.len(),
{
    if records.len() > 0 {
        let (mid, other) = choose|mid: Behaviour<S>, other: QueryId|
            stored_each(before, mid, records.drop_last()) && #[trigger] put_started(
                mid,
                after,
                records.last(),
                Quorum::All,
                turn_context(records.last(), before.local_peer_id),
                other,
            );
        lemma_stored_each_keeps_reports(before, mid, records.drop_last(), id, p);
        lemma_stored_each_numbers(before, mid, records.drop_last());
        assert(id.0 != ahead(before.queries.next_id, records.len() - 1));
        lemma_search_keeps_reports(
            mid.queries,
            after.queries,
            mid.kbuckets@,
            other,
            key_of_bytes(records.last().key@),
            id,
            p,
        );
    }
}

/// What runs when polling starts keeps what other queries have reported.
proof fn lemma_background_keeps_reports<S>(
    before: Behaviour<S>,
    after: Behaviour<S>,
    id: QueryId,
    p: PeerId,
)
    requires
        before.wf(),
        background_run(before, after),
        reported_if_running(before.queries, id, p),
        !gives_away(before, after, id),
    ensures
        reported_if_running(after.queries, id, p),
{
    let mid = choose|mid: Behaviour<S>| #[trigger]
        jobs_run(before, mid) && {
            let asked = Behaviour {
                bootstrap_status: Status { due: false, ..mid.bootstrap_status },
                ..mid
            };
            if mid.bootstrap_status.due {
                exists|r: Result<QueryId, NoKnownPeers>| #[trigger]
                    bootstrap_started(asked, after, r)
            } else {
                after == asked
            }
        };
    let room = capacity(before.queries);
    let providers = providers_ready(before.add_provider_job);
    let n = lesser(allowed(room), providers.len());
    let room2 = room_after(room, providers.len(), before.add_provider_job is Some);
    let records = records_ready(before.put_record_job);
    let m = lesser(allowed(room2), records.len());
    let (first, second, third) = choose|
        first: Behaviour<S>,
        second: Behaviour<S>,
        third: Behaviour<S>,
    |
        {
            &&& first == (Behaviour { add_provider_job: first.add_provider_job, ..before })
            &&& providers_taken(before.add_provider_job, first.add_provider_job, n as int)
            &&& #[trigger] announced_each(first, second, providers.take(n as int))
            &&& third == (Behaviour { put_record_job: third.put_record_job, ..second })
            &&& records_taken(before.put_record_job, third.put_record_job, m as int)
            &&& #[trigger] stored_each(third, mid, records.take(m as int))
        };
    lemma_announced_each_numbers(first, second, providers.take(n as int));
    lemma_stored_each_numbers(third, mid, records.take(m as int));
    let from = before.queries.next_id;
    assert forall|k: int| 0 <= k < n implies id.0 != #[trigger] ahead(from, k) by {}
    lemma_announced_each_keeps_reports(first, second, providers.take(n as int), id, p);
    assert forall|k: int| 0 <= k < m implies id.0 != #[trigger] ahead(
        third.queries.next_id,
        k,
    ) by {
        assert(ahead(third.queries.next_id, k) == ahead(from, n + k));
    }
    lemma_stored_each_keeps_reports(third, mid, records.take(m as int), id, p);
    if after.queries != mid.queries {
        let r = choose|r: Result<QueryId, NoKnownPeers>| #[trigger]
            bootstrap_started(
                Behaviour {
                    bootstrap_status: Status { due: false, ..mid.bootstrap_status },
                    ..mid
                },
                after,
                r,
            );
        assert(mid.queries.next_id == ahead(from, (n + m) as int));
        lemma_search_keeps_reports(
            mid.queries,
            after.queries,
            mid.kbuckets@,
            r->Ok_0,
            key_of_peer(mid.local_peer_id),
            id,
            p,
        );
    }
}

/// What is decided on the running queries keeps what other queries have reported.
proof fn lemma_decision_keeps_reports<S>(
    before: Behaviour<S>,
    after: Behaviour<S>,
    step: LookupStep,
    now: Moment,
    r: PollOutput,
    id: QueryId,
    p: PeerId,
)
    requires
        before.wf(),
        polled(before, after, PollInput::Lookup(step), now, r),
        reported_if_running(before.queries, id, p),
    ensures
        reported_if_running(after.queries, id, p),
{
    let (mid, state) = choose|mid: Behaviour<S>, state: PoolState|
        {
            &&& mid == (Behaviour { queries: mid.queries, ..before })
            &&& pool_polled(before.queries, mid.queries, step, now, state)
            &&& #[trigger] decision_handled(mid, after, state, now, r)
        };
    let entries = before.queries.queries.entries@;
    let left = mid.queries.queries.entries@;
    match step {
        LookupStep::Contact { id: other, peer } => {
            if state is Contact {
                let q2 = left[key_index(entries, other)].1;
                lemma_put_keeps_reports(before.queries, mid.queries, other, q2, id, p);
                lemma_insert_get(entries, other, q2, other);
                let q3 = after.queries.queries.entries@[key_index(left, other)].1;
                lemma_put_keeps_reports(mid.queries, after.queries, other, q3, id, p);
            }
        },
        LookupStep::Idle => {
            let change = |q: Query, q2: Query| q2.info == q.info;
            assert(each_query(before.queries, mid.queries, change));
            lemma_each_keeps_reports(before.queries, mid.queries, change, id, p);
        },
        LookupStep::Finished { id: other } | LookupStep::TimedOut { id: other } => {
            if !(state is Idle) {
                let q = entries[key_index(entries, other)].1;
                assert(before.queries.wf());
                assert(q.id == other);
                lemma_removal_keeps_reports(before.queries, mid.queries, other, id, p);
                if after.queries != mid.queries {
                    let q2 = query_in(after.queries, other);
                    lemma_put_keeps_reports(mid.queries, after.queries, other, q2, id, p);
                }
            }
        },
    }
}

/// A provider that was reported stays remembered, whatever is done to the behaviour, as long as
/// the query runs and its number is not given to another one; and no query comes to run under a
/// number that is not given away.
pub proof fn law_reported_provider_stays_remembered<S: RecordStore>(
    before: Behaviour<S>,
    after: Behaviour<S>,
    op: Operation,
    id: QueryId,
    p: PeerId,
)
    requires
        before.wf(),
        performed(before, after, op),
        !gives_away(before, after, id),
        reported_if_running(before.queries, id, p),
    ensures
        reported_if_running(after.queries, id, p),
{
    let t = before.kbuckets@;
    match op {
        Operation::GetClosestPeers { key, id: other, .. } => {
            let target = key_of_bytes(key@);
            lemma_search_keeps_reports(before.queries, after.queries, t, other, target, id, p);
        },
        Operation::GetRecord { key, id: other, .. } => {
            let target = key_of_bytes(key@);
            lemma_search_keeps_reports(before.queries, after.queries, t, other, target, id, p);
        },
        Operation::PutRecord { record, result, .. } => {
            if let Ok(other) = result {
                let target = key_of_bytes(record.key@);
                lemma_search_keeps_reports(before.queries, after.queries, t, other, target, id, p);
            }
        },
        Operation::PutRecordTo { peers, id: other, .. } => {
            lemma_start_keeps_reports(
                before.queries,
                after.queries,
                other,
                query_in(after.queries, other).info,
                PeersKind::Fixed,
                peers@,
                id,
                p,
            );
        },
        Operation::StartPutRecord { record, id: other, .. } => {
            let target = key_of_bytes(record.key@);
            lemma_search_keeps_reports(before.queries, after.queries, t, other, target, id, p);
        },
        Operation::Bootstrap { result } => {
            if let Ok(other) = result {
                let target = key_of_peer(before.local_peer_id);
                lemma_search_keeps_reports(before.queries, after.queries, t, other, target, id, p);
            }
        },
        Operation::StartProviding { key, result } => {
            if let Ok(other) = result {
                let target = key_of_bytes(key@);
                lemma_search_keeps_reports(before.queries, after.queries, t, other, target, id, p);
            }
        },
        Operation::StartAddProvider { key, id: other, .. } => {
            let target = key_of_bytes(key@);
            lemma_search_keeps_reports(before.queries, after.queries, t, other, target, id, p);
        },
        Operation::GetProviders { key, id: other, .. } => {
            let target = key_of_bytes(key@);
            lemma_search_keeps_reports(before.queries, after.queries, t, other, target, id, p);
        },
        Operation::FinishQuery { id: other } => {
            if runs(before.queries, other) {
                let q = query_in(before.queries, other);
                lemma_put_keeps_reports(
                    before.queries,
                    after.queries,
                    other,
                    Query { peers: QueryPeers { finished: true, ..q.peers }, ..q },
                    id,
                    p,
                );
            }
        },
        Operation::CancelQuery { id: other } => {
            lemma_removal_keeps_reports(before.queries, after.queries, other, id, p);
        },
        Operation::Connect { peer, .. } => {
            lemma_each_keeps_reports(before.queries, after.queries, rpc_taken(peer), id, p);
        },
        Operation::Report { source, connection, event, now } => {
            lemma_events_keep_reports(before, after, source, connection, event, now, id, p);
        },
        Operation::News { event } => {
            lemma_news_keep_reports(before, after, event, id, p);
        },
        Operation::Poll { input: PollInput::Begin, now, output } => {
            let mid = choose|mid: Behaviour<S>| #[trigger]
                background_run(before, mid) && drained(mid, after, now, output);
            lemma_background_keeps_reports(before, mid, id, p);
        },
        Operation::Poll { input: PollInput::Lookup(step), now, output } => {
            lemma_decision_keeps_reports(before, after, step, now, output, id, p);
        },
        _ => {},
    }
}

/// A peer is among those of a list of entries if it is among their keys.
proof fn lemma_keys_of(entries: Seq<(PeerId, Vec<Multiaddr>)>, p: PeerId)
    requires
        has_key(entries, p),
    ensures
        keys_of(addr_views(entries)).contains(p),
        has_key(addr_views(entries), p),
{
    let i = key_index(entries, p);
    assert(addr_views(entries)[i].0 == p);
    assert(keys_of(addr_views(entries))[i] == p);
}

/// A report of a provider that a connection handler leads to names one that its query has not
/// reported before and remembers from then on.
proof fn lemma_event_reports_new_provider<S: RecordStore>(
    before: Behaviour<S>,
    after: Behaviour<S>,
    source: PeerId,
    connection: ConnectionId,
    event: HandlerEvent,
    now: Moment,
    id: QueryId,
    p: PeerId,
)
    requires
        before.wf(),
        event_handled(before, after, source, connection, event, now),
        queues_report(before.queued_events@, after.queued_events@, id, p),
    ensures
        !reported_if_running(before.queries, id, p),
        has_reported(after.queries, id, p),
{
    let events = after.queued_events@;
    let n = before.queued_events@.len() as int;
    let at = choose|i: int| n <= i < events.len() && reports_provider(#[trigger] events[i], id, p);
    match event {
        HandlerEvent::GetProvidersRes { provider_peers, query_id, .. } => {
            let entries = before.queries.queries.entries@;
            assert(events[at] == events.last());
            let q = query_in(before.queries, query_id);
            let list = kad_peers(provider_peers@);
            let known = q.info->GetProviders_reported@;
            let fresh = new_providers(list, known);
            lemma_new_providers(list, known);
            let q2 = after.queries.queries.entries@[key_index(entries, query_id)].1;
            lemma_insert_get(entries, query_id, q2, query_id);
            match events.last() {
                ToSwarm::GenerateEvent(
                    Event::OutboundQueryProgressed {
                        result: QueryResult::GetProviders(
                            Ok(GetProvidersOk::FoundProviders { providers, .. }),
                        ),
                        ..
                    },
                ) => {
                    lemma_keys_of(providers.entries@, p);
                    assert(addr_views(providers.entries@) == fresh);
                    let i = key_index(fresh, p);
                    assert(fresh[i].0 == p);
                    assert((known + keys_of(fresh))[known.len() + i] == p);
                },
                _ => {},
            }
        },
        HandlerEvent::ProtocolConfirmed { .. } | HandlerEvent::ProtocolNotSupported { .. } => {
            assert(at == n || at == n + 1);
            assert(at == n + 1 ==> events[at] == events.last());
        },
        HandlerEvent::FindNodeReq { .. }
        | HandlerEvent::GetProvidersReq { .. }
        | HandlerEvent::GetRecord { .. } => {
            assert(events[at] == events[n] || events[at] == events.last());
        },
        _ => {
            assert(at == n || at == n + 1);
        },
    }
}

/// Nothing that the swarm tells leads to a report of a provider.
proof fn lemma_news_report_no_provider<S>(
    before: Behaviour<S>,
    after: Behaviour<S>,
    event: FromSwarm,
    id: QueryId,
    p: PeerId,
)
    requires
        news_handled(before, after, event),
    ensures
        !queues_report(before.queued_events@, after.queued_events@, id, p),
{
    match event {
        FromSwarm::ConnectionEstablished { peer_id, failed_addresses, .. } => {
            let mid = choose|mid: Behaviour<S>| #[trigger]
                addresses_failure(before, mid, peer_id, failed_addresses@)
                    && after.queued_events == mid.queued_events;
            lemma_failures_keep_queue(before, mid, peer_id, failed_addresses@);
        },
        FromSwarm::DialFailure { peer_id: Some(peer), error, .. } => {
            if !(error is DialPeerConditionFalse) {
                let addrs = unreachable_addresses(error);
                let mid = choose|mid: Behaviour<S>| #[trigger]
                    addresses_failure(before, mid, peer, addrs) && after.queued_events
                        == mid.queued_events;
                lemma_failures_keep_queue(before, mid, peer, addrs);
            }
        },
        _ => {},
    }
}

/// Addresses that fail leave the queue alone.
proof fn lemma_failures_keep_queue<S>(
    before: Behaviour<S>,
    after: Behaviour<S>,
    peer: PeerId,
    addrs: Seq<Multiaddr>,
)
    requires
        addresses_failure(before, after, peer, addrs),
    ensures
        after.queued_events == before.queued_events,
    decreases addrs.len(),
{
    if addrs.len() > 0 {
        let mid = choose|mid: Behaviour<S>|
            addresses_failure(before, mid, peer, addrs.drop_last()) && #[trigger] address_failure(
                mid,
                after,
                peer,
                addrs.last(),
            );
        lemma_failures_keep_queue(before, mid, peer, addrs.drop_last());
    }
}

/// The jobs, and the bootstrap, that run when polling starts leave the queue alone.
proof fn lemma_background_keeps_queue<S>(before: Behaviour<S>, after: Behaviour<S>)
    requires
        background_run(before, after),
    ensures
        after.queued_events == before.queued_events,
{
    let mid = choose|mid: Behaviour<S>| #[trigger]
        jobs_run(before, mid) && after.queued_events == mid.queued_events;
    let room = capacity(before.queries);
    let providers = providers_ready(before.add_provider_job);
    let n = lesser(allowed(room), providers.len());
    let room2 = room_after(room, providers.len(), before.add_provider_job is Some);
    let records = records_ready(before.put_record_job);
    let m = lesser(allowed(room2), records.len());
    let (first, second, third) = choose|
        first: Behaviour<S>,
        second: Behaviour<S>,
        third: Behaviour<S>,
    |
        {
            &&& first == (Behaviour { add_provider_job: first.add_provider_job, ..before })
            &&& providers_taken(before.add_provider_job, first.add_provider_job, n as int)
            &&& #[trigger] announced_each(first, second, providers.take(n as int))
            &&& third == (Behaviour { put_record_job: third.put_record_job, ..second })
            &&& records_taken(before.put_record_job, third.put_record_job, m as int)
            &&& #[trigger] stored_each(third, mid, records.take(m as int))
        };
    lemma_announced_each_numbers(first, second, providers.take(n as int));
    lemma_stored_each_numbers(third, mid, records.take(m as int));
}

/// Polling makes no report of a provider: it only yields those that are queued.
proof fn lemma_poll_reports_no_provider<S>(
    before: Behaviour<S>,
    after: Behaviour<S>,
    input: PollInput,
    now: Moment,
    output: PollOutput,
    id: QueryId,
    p: PeerId,
)
    requires
        polled(before, after, input, now, output),
    ensures
        !makes_report(before, after, (Operation::Poll { input, now, output }), id, p),
{
    match input {
        PollInput::Begin => {
            let mid = choose|mid: Behaviour<S>| #[trigger]
                background_run(before, mid) && drained(mid, after, now, output);
            lemma_background_keeps_queue(before, mid);
        },
        PollInput::Lookup(step) => {
            let (mid, state) = choose|mid: Behaviour<S>, state: PoolState|
                {
                    &&& mid == (Behaviour { queries: mid.queries, ..before })
                    &&& pool_polled(before.queries, mid.queries, step, now, state)
                    &&& #[trigger] decision_handled(mid, after, state, now, output)
                };
            match state {
                PoolState::Contact(..) => {
                    let n = before.queued_events@.len() as int;
                    assert(after.queued_events@.len() <= n + 1);
                    assert(after.queued_events@.len() == n + 1 ==> after.queued_events@[n]
                        == after.queued_events@.last());
                },
                _ => {},
            }
        },
    }
}

/// A report of a provider names one that its query has not reported before, and that it
/// remembers from then on.
pub proof fn law_report_names_new_provider<S: RecordStore>(
    before: Behaviour<S>,
    after: Behaviour<S>,
    op: Operation,
    id: QueryId,
    p: PeerId,
)
    requires
        before.wf(),
        performed(before, after, op),
        makes_report(before, after, op, id, p),
    ensures
        gives_away(before, after, id) || (has_key(before.queries.queries.entries@, id)
            && !has_reported(before.queries, id, p)),
        has_reported(after.queries, id, p),
{
    let n = before.queued_events@.len() as int;
    let events = after.queued_events@;
    if queues_report(before.queued_events@, events, id, p) {
        let at = choose|i: int|
            n <= i < events.len() && reports_provider(#[trigger] events[i], id, p);
        match op {
            Operation::Report { source, connection, event, now } => {
                lemma_event_reports_new_provider(
                    before,
                    after,
                    source,
                    connection,
                    event,
                    now,
                    id,
                    p,
                );
            },
            Operation::GetProviders { id: other, .. } => {
                let entries = before.queries.queries.entries@;
                assert(events[at] == events.last());
                lemma_insert_get(entries, other, query_in(after.queries, other), other);
                match events.last() {
                    ToSwarm::GenerateEvent(
                        Event::OutboundQueryProgressed {
                            result: QueryResult::GetProviders(
                                Ok(GetProvidersOk::FoundProviders { providers, .. }),
                            ),
                            ..
                        },
                    ) => {
                        lemma_keys_of(providers.entries@, p);
                    },
                    _ => {},
                }
            },
            Operation::News { event } => {
                lemma_news_report_no_provider(before, after, event, id, p);
            },
            Operation::Poll { input, now, output } => {
                lemma_poll_reports_no_provider(before, after, input, now, output, id, p);
            },
            Operation::SetMode { .. } => {},
            _ => {
                assert(events[at] == events.last());
            },
        }
    } else if let Operation::Poll { input, now, output } = op {
        lemma_poll_reports_no_provider(before, after, input, now, output, id, p);
    }
}

/// Over all that is done to a behaviour, each provider is reported at most once by a query: of
/// two reports under one number, the second does not name a provider of the first, unless the
/// number was given to another query in between.
pub proof fn law_each_provider_is_reported_once<S: RecordStore>(
    states: Seq<Behaviour<S>>,
    ops: Seq<Operation>,
    i: int,
    j: int,
    id: QueryId,
    p: PeerId,
)
    requires
        states.len() == ops.len() + 1,
        forall|k: int| 0 <= k < states.len() ==> (#[trigger] states[k]).wf(),
        forall|k: int|
            0 <= k < ops.len() ==> performed(states[k], states[k + 1], #[trigger] ops[k]),
        0 <= i < j < ops.len(),
        forall|k: int|
            #![trigger states[k]]
            i < k <= j ==> !gives_away(states[k], states[k + 1], id),
        makes_report(states[i], states[i + 1], ops[i], id, p),
    ensures
        !makes_report(states[j], states[j + 1], ops[j], id, p),
{
    law_report_names_new_provider(states[i], states[i + 1], ops[i], id, p);
    lemma_reports_are_kept(states, ops, i + 1, j, id, p);
    if makes_report(states[j], states[j + 1], ops[j], id, p) {
        law_report_names_new_provider(states[j], states[j + 1], ops[j], id, p);
    }
}

/// What was reported stays remembered over several operations.
proof fn lemma_reports_are_kept<S: RecordStore>(
    states: Seq<Behaviour<S>>,
    ops: Seq<Operation>,
    i: int,
    j: int,
    id: QueryId,
    p: PeerId,
)
    requires
        states.len() == ops.len() + 1,
        forall|k: int| 0 <= k < states.len() ==> (#[trigger] states[k]).wf(),
        forall|k: int|
            0 <= k < ops.len() ==> performed(states[k], states[k + 1], #[trigger] ops[k]),
        0 <= i <= j < states.len(),
        forall|k: int|
            #![trigger states[k]]
            i <= k < j ==> !gives_away(states[k], states[k + 1], id),
        reported_if_running(states[i].queries, id, p),
    ensures
        reported_if_running(states[j].queries, id, p),
    decreases j - i,
{
    if i < j {
        lemma_reports_are_kept(states, ops, i, j - 1, id, p);
        assert(performed(states[j - 1], states[j - 1 + 1], ops[j - 1]));
        law_reported_provider_stays_remembered(states[j - 1], states[j], ops[j - 1], id, p);
    }
}

} // verus!
