//! Laws on what the node does by itself: its jobs, its bootstrap and its mode.

use libp2p_core::Multiaddr;
use libp2p_identity::PeerId;
use vstd::prelude::*;

use crate::assoc::entries_map;
use crate::assoc::has_key;
use crate::assoc::key_index;
use crate::assoc::keys_distinct;
use crate::assoc::lemma_entries_insert;
use crate::assoc::lemma_insert_get;
use crate::assoc::without_item;
use crate::kad::behaviour::Behaviour;
use crate::kad::bootstrap::Signal;
use crate::kad::bootstrap::Status;
use crate::kad::config::Config;
use crate::kad::connections::news_handled;
use crate::kad::contact_laws::knows;
use crate::kad::contact_laws::law_query_times_out_in_time;
use crate::kad::events::AddProviderContext;
use crate::kad::events::Event;
use crate::kad::events::NoKnownPeers;
use crate::kad::events::PutRecordContext;
use crate::kad::events::QueryInfo;
use crate::kad::events::QueryStats;
use crate::kad::events::Quorum;
use crate::kad::kbucket::TableView;
use crate::kad::key::key_of_bytes;
use crate::kad::key::key_of_peer;
use crate::kad::key::KeyBytes;
use crate::kad::lookups::announcement_started;
use crate::kad::lookups::bootstrap_started;
use crate::kad::lookups::put_started;
use crate::kad::lookups::query_in;
use crate::kad::lookups::search_started;
use crate::kad::mode::mode_set;
use crate::kad::poll::allowed;
use crate::kad::poll::announced_each;
use crate::kad::poll::background_run;
use crate::kad::poll::capacity;
use crate::kad::poll::decision_handled;
use crate::kad::poll::drained;
use crate::kad::poll::jobs_run;
use crate::kad::poll::lesser;
use crate::kad::poll::polled;
use crate::kad::poll::polled_now;
use crate::kad::poll::providers_ready;
use crate::kad::poll::providers_taken;
use crate::kad::poll::records_ready;
use crate::kad::poll::records_taken;
use crate::kad::poll::room_after;
use crate::kad::poll::stored_each;
use crate::kad::poll::turn_context;
use crate::kad::poll::PollInput;
use crate::kad::poll::PollOutput;
use crate::kad::poll_laws::says;
use crate::kad::protocol::HandlerIn;
use crate::kad::protocol::Mode;
use crate::kad::protocol::QueryId;
use crate::kad::query::pool_polled;
use crate::kad::query::LookupStep;
use crate::kad::query::PeersKind;
use crate::kad::query::PoolState;
use crate::kad::query::Query;
use crate::kad::query::QueryPool;
use crate::kad::record::ProviderRecord;
use crate::kad::record::Record;
use crate::kad::record_laws::goes_to;
use crate::kad::record_laws::shown_by;
use crate::kad::table_laws::lemma_loses;
use crate::kad::table_laws::loses;
use crate::net::external_addrs;
use crate::net::is_present;
use crate::net::listen_addrs;
use crate::swarm::FromSwarm;
use crate::time::Moment;

verus! {

////////////////////////////////////////////////////////////////////////////////
// The jobs

/// The smallest of three numbers.
pub open spec fn least(a: int, b: int, c: int) -> int {
    if a <= b && a <= c {
        a
    } else if b <= c {
        b
    } else {
        c
    }
}

/// How many more queries may run when jobs are to start some.
pub open spec fn room_left(pool: QueryPool) -> int {
    if pool.queries.entries@.len() >= 100 {
        0
    } else {
        100 - pool.queries.entries@.len()
    }
}

/// Whether a query announces a provider again.
pub open spec fn announces_again(q: Query, record: ProviderRecord) -> bool {
    &&& q.info matches QueryInfo::AddProvider { key, phase, context } && key == record.key
        && phase is GetClosestPeers && context == AddProviderContext::Republish
    &&& q.peers.kind matches PeersKind::Closest { target, .. } && target == key_of_bytes(
        record.key@,
    )
}

/// Whether a query stores a record again: at every peer at which it should be, and as published
/// again if it is one of the local node.
pub open spec fn stores_again(q: Query, record: Record, local: PeerId, factor: int) -> bool {
    &&& q.info matches QueryInfo::PutRecord { record: r, quorum, phase, context } && r == record
        && quorum@ == factor && phase is GetClosestPeers && (record.publisher == Some(local)
        ==> context == PutRecordContext::Republish) && (record.publisher != Some(local) ==> context
        == PutRecordContext::Replicate)
    &&& q.peers.kind matches PeersKind::Closest { target, .. } && target == key_of_bytes(
        record.key@,
    )
}

/// A search that was started is the next query.
proof fn lemma_started(
    before: QueryPool,
    after: QueryPool,
    t: TableView,
    id: QueryId,
    target: KeyBytes,
)
    requires
        keys_distinct(before.queries.entries@),
        before.next_id < usize::MAX,
        search_started(before, after, t, id, target),
    ensures
        keys_distinct(after.queries.entries@),
        after.queries@ == before.queries@.insert(id, query_in(after, id)),
        id == QueryId(before.next_id),
        after.next_id == before.next_id + 1,
        after.config == before.config,
        query_in(after, id).peers.kind matches PeersKind::Closest { target: k, .. } && k == target,
{
    let entries = before.queries.entries@;
    let q = after.queries.entries@[key_index(after.queries.entries@, id)].1;
    lemma_entries_insert(entries, id, q);
    lemma_insert_get(entries, id, q, id);
}

/// Announcements that are made one after the other are the next queries.
proof fn lemma_announced<S>(
    before: Behaviour<S>,
    after: Behaviour<S>,
    records: Seq<ProviderRecord>,
    n: usize,
)
    requires
        keys_distinct(before.queries.queries.entries@),
        before.queries.next_id + records.len() <= usize::MAX,
        announced_each(before, after, records),
    ensures
        after == (Behaviour { queries: after.queries, ..before }),
        keys_distinct(after.queries.queries.entries@),
        after.queries.config == before.queries.config,
        after.queries.next_id == before.queries.next_id + records.len(),
        ({
            let start = before.queries.next_id;
            let pool = before.queries.queries@;
            let pool2 = after.queries.queries@;
            &&& start <= n < start + records.len() ==> {
                &&& pool2.contains_key(QueryId(n))
                &&& announces_again(pool2[QueryId(n)], records[n - start])
            }
            &&& !(start <= n < start + records.len()) ==> {
                &&& pool2.contains_key(QueryId(n)) <==> pool.contains_key(QueryId(n))
                &&& pool.contains_key(QueryId(n)) ==> pool2[QueryId(n)] == pool[QueryId(n)]
            }
        }),
    decreases records.len(),
{
    if records.len() > 0 {
        let front = records.drop_last();
        let (mid, id) = choose|mid: Behaviour<S>, id: QueryId|
            announced_each(before, mid, front) && #[trigger] announcement_started(
                mid,
                after,
                records.last().key,
                AddProviderContext::Republish,
                id,
            );
        lemma_announced(before, mid, front, n);
        lemma_started(
            mid.queries,
            after.queries,
            mid.kbuckets@,
            id,
            key_of_bytes(records.last().key@),
        );
        let start = before.queries.next_id;
        assert(announces_again(query_in(after.queries, id), records.last()));
        if start <= n < start + front.len() {
            assert(front[n - start] == records[n - start]);
        }
    }
}

/// Records that are stored one after the other are the next queries.
proof fn lemma_stored<S>(
    before: Behaviour<S>,
    after: Behaviour<S>,
    records: Seq<Record>,
    n: usize,
)
    requires
        keys_distinct(before.queries.queries.entries@),
        before.queries.next_id + records.len() <= usize::MAX,
        stored_each(before, after, records),
    ensures
        after == (Behaviour { queries: after.queries, ..before }),
        keys_distinct(after.queries.queries.entries@),
        after.queries.config == before.queries.config,
        after.queries.next_id == before.queries.next_id + records.len(),
        ({
            let start = before.queries.next_id;
            let pool = before.queries.queries@;
            let pool2 = after.queries.queries@;
            &&& start <= n < start + records.len() ==> {
                &&& pool2.contains_key(QueryId(n))
                &&& stores_again(
                    pool2[QueryId(n)],
                    records[n - start],
                    before.local_peer_id,
                    before.queries.config.replication_factor@ as int,
                )
            }
            &&& !(start <= n < start + records.len()) ==> {
                &&& pool2.contains_key(QueryId(n)) <==> pool.contains_key(QueryId(n))
                &&& pool.contains_key(QueryId(n)) ==> pool2[QueryId(n)] == pool[QueryId(n)]
            }
        }),
    decreases records.len(),
{
    if records.len() > 0 {
        let front = records.drop_last();
        let local = before.local_peer_id;
        let factor = before.queries.config.replication_factor@ as int;
        let (mid, id) = choose|mid: Behaviour<S>, id: QueryId|
            stored_each(before, mid, front) && #[trigger] put_started(
                mid,
                after,
                records.last(),
                Quorum::All,
                turn_context(records.last(), local),
                id,
            );
        lemma_stored(before, mid, front, n);
        lemma_started(
            mid.queries,
            after.queries,
            mid.kbuckets@,
            id,
            key_of_bytes(records.last().key@),
        );
        let start = before.queries.next_id;
        assert(stores_again(query_in(after.queries, id), records.last(), local, factor));
        if start <= n < start + front.len() {
            assert(front[n - start] == records[n - start]);
        }
    }
}

/// How many records the jobs take at once: ten each at the most, and no more than may still run;
/// the second job counts those of the first only if that had fewer than it might have taken.
pub open spec fn taken_at_once(room: int, providers: int, present: bool, records: int) -> (
    int,
    int,
) {
    let first = least(10, room, providers);
    let rest = if present && providers < 10 && providers < room {
        room - providers
    } else {
        room
    };
    (first, least(10, rest, records))
}

/// The jobs take the records whose turn it is from the front, as many as they may, and start a
/// query for each: the providers are announced again, and the records are stored again. What they
/// do not take waits for the next time. Queries that run go on as they are.
pub proof fn law_due_records_are_sent_again<S>(
    before: Behaviour<S>,
    after: Behaviour<S>,
    n: usize,
)
    requires
        before.wf(),
        before.queries.next_id + 20 <= usize::MAX,
        jobs_run(before, after),
    ensures
        ({
            let providers = match before.add_provider_job {
                Some(job) => job.ready@,
                None => Seq::empty(),
            };
            let records = match before.put_record_job {
                Some(job) => job.ready@,
                None => Seq::empty(),
            };
            let (first, second) = taken_at_once(
                room_left(before.queries),
                providers.len() as int,
                before.add_provider_job is Some,
                records.len() as int,
            );
            let start = before.queries.next_id;
            let pool = before.queries.queries@;
            let pool2 = after.queries.queries@;
            &&& before.add_provider_job is Some ==> (after.add_provider_job matches Some(job)
                && job.ready@ == providers.skip(first))
            &&& before.put_record_job is Some ==> (after.put_record_job matches Some(job)
                && job.ready@ == records.skip(second))
            &&& after.queries.next_id == start + first + second
            &&& start <= n < start + first ==> {
                &&& pool2.contains_key(QueryId(n))
                &&& announces_again(pool2[QueryId(n)], providers[n - start])
            }
            &&& start + first <= n < start + first + second ==> {
                &&& pool2.contains_key(QueryId(n))
                &&& stores_again(
                    pool2[QueryId(n)],
                    records[n - start - first],
                    before.local_peer_id,
                    before.queries.config.replication_factor@ as int,
                )
            }
            &&& !(start <= n < start + first + second) ==> {
                &&& pool2.contains_key(QueryId(n)) <==> pool.contains_key(QueryId(n))
                &&& pool.contains_key(QueryId(n)) ==> pool2[QueryId(n)] == pool[QueryId(n)]
            }
        }),
        after.queued_events == before.queued_events,
        after.store == before.store,
        after.kbuckets == before.kbuckets,
        after.bootstrap_status == before.bootstrap_status,
{
    let room = capacity(before.queries);
    let providers = providers_ready(before.add_provider_job);
    let a = lesser(allowed(room), providers.len());
    let room2 = room_after(room, providers.len(), before.add_provider_job is Some);
    let records = records_ready(before.put_record_job);
    let b = lesser(allowed(room2), records.len());
    let (first, second, third) = choose|
        first: Behaviour<S>,
        second: Behaviour<S>,
        third: Behaviour<S>,
    |
        {
            &&& first == (Behaviour { add_provider_job: first.add_provider_job, ..before })
            &&& providers_taken(before.add_provider_job, first.add_provider_job, a as int)
            &&& #[trigger] announced_each(first, second, providers.take(a as int))
            &&& third == (Behaviour { put_record_job: third.put_record_job, ..second })
            &&& records_taken(before.put_record_job, third.put_record_job, b as int)
            &&& #[trigger] stored_each(third, after, records.take(b as int))
        };
    assert(before.queries.wf());
    lemma_announced(first, second, providers.take(a as int), n);
    lemma_stored(third, after, records.take(b as int), n);
    let start = before.queries.next_id;
    if start <= n < start + a {
        assert(providers.take(a as int)[n - start] == providers[n - start]);
    }
    if start + a <= n < start + a + b {
        assert(records.take(b as int)[n - start - a] == records[n - start - a]);
    }
}

/// When polling begins, a bootstrap is started exactly if one is due, once the jobs have run, and
/// it is no longer due then. It fails if the routing table is empty.
pub proof fn law_due_bootstrap_is_started<S>(before: Behaviour<S>, after: Behaviour<S>) -> (mid:
    Behaviour<S>)
    requires
        before.wf(),
        before.queries.next_id + 20 < usize::MAX,
        background_run(before, after),
    ensures
        jobs_run(before, mid),
        !after.bootstrap_status.due,
        ({
            let starts = before.bootstrap_status.due && before.kbuckets@.nodes.len() > 0;
            let id = QueryId(mid.queries.next_id);
            &&& starts ==> {
                &&& after.queries.queries@.contains_key(id)
                &&& after.queries.queries@[id].info matches QueryInfo::Bootstrap {
                    peer,
                    remaining,
                    step,
                } && peer == before.local_peer_id && remaining is None && step.count@ == 1
                &&& after.queries.next_id == mid.queries.next_id + 1
            }
            &&& !starts ==> after.queries == mid.queries
        }),
        after.queued_events == before.queued_events,
        after.kbuckets == before.kbuckets,
{
    let mid = choose|mid: Behaviour<S>| #[trigger]
        jobs_run(before, mid) && {
            let asked = Behaviour {
                bootstrap_status: Status {
                    due: false,
                    ..mid.bootstrap_status
                },
                ..mid
            };
            if mid.bootstrap_status.due {
                exists|r: Result<QueryId, NoKnownPeers>| #[trigger]
                    bootstrap_started(asked, after, r)
            } else {
                after == asked
            }
        };
    law_due_records_are_sent_again(before, mid, 0);
    lemma_jobs_distinct(before, mid);
    if mid.bootstrap_status.due {
        let asked = Behaviour {
            bootstrap_status: Status {
                due: false,
                ..mid.bootstrap_status
            },
            ..mid
        };
        let r = choose|r: Result<QueryId, NoKnownPeers>| #[trigger]
            bootstrap_started(asked, after, r);
        if let Ok(id) = r {
            lemma_started(
                mid.queries,
                after.queries,
                mid.kbuckets@,
                id,
                key_of_peer(mid.local_peer_id),
            );
        }
    }
    mid
}

/// The jobs leave the node itself and the numbers of the queries in order.
proof fn lemma_jobs_distinct<S>(before: Behaviour<S>, after: Behaviour<S>)
    requires
        before.wf(),
        before.queries.next_id + 20 <= usize::MAX,
        jobs_run(before, after),
    ensures
        keys_distinct(after.queries.queries.entries@),
        after.local_peer_id == before.local_peer_id,
{
    let room = capacity(before.queries);
    let providers = providers_ready(before.add_provider_job);
    let a = lesser(allowed(room), providers.len());
    let room2 = room_after(room, providers.len(), before.add_provider_job is Some);
    let records = records_ready(before.put_record_job);
    let b = lesser(allowed(room2), records.len());
    let (first, second, third) = choose|
        first: Behaviour<S>,
        second: Behaviour<S>,
        third: Behaviour<S>,
    |
        {
            &&& first == (Behaviour { add_provider_job: first.add_provider_job, ..before })
            &&& providers_taken(before.add_provider_job, first.add_provider_job, a as int)
            &&& #[trigger] announced_each(first, second, providers.take(a as int))
            &&& third == (Behaviour { put_record_job: third.put_record_job, ..second })
            &&& records_taken(before.put_record_job, third.put_record_job, b as int)
            &&& #[trigger] stored_each(third, after, records.take(b as int))
        };
    assert(before.queries.wf());
    lemma_announced(first, second, providers.take(a as int), 0);
    lemma_stored(third, after, records.take(b as int), 0);
}

////////////////////////////////////////////////////////////////////////////////
// What polling is

/// When polling begins, what the node does by itself is done before the next thing is yielded.
pub proof fn law_polling_begins_with_background<S>(
    before: Behaviour<S>,
    after: Behaviour<S>,
    r: PollOutput,
) -> (seen: (Behaviour<S>, Moment))
    requires
        polled_now(before, after, PollInput::Begin, r),
    ensures
        shown_by(before.clock, seen.1),
        background_run(before, seen.0),
        drained(seen.0, after, seen.1, r),
{
    let now = choose|now: Moment|
        is_present(before.clock, now) && #[trigger] polled(
            before,
            after,
            PollInput::Begin,
            now,
            r,
        );
    let mid = choose|mid: Behaviour<S>| #[trigger]
        background_run(before, mid) && drained(mid, after, now, r);
    (mid, now)
}

/// When the running queries have nothing to do, polling goes on with what is queued, and if
/// nothing is, it has to wait for something to be done. The time of a query that had not been
/// started runs from then on.
pub proof fn law_idle_poll_waits<S>(
    before: Behaviour<S>,
    after: Behaviour<S>,
    r: PollOutput,
    k: int,
) -> (now: Moment)
    requires
        polled_now(before, after, PollInput::Lookup(LookupStep::Idle), r),
    ensures
        shown_by(before.clock, now),
        before.queued_events@.len() == 0 ==> {
            &&& r is Pending
            &&& after == (Behaviour { no_events_waker: true, queries: after.queries, ..before })
        },
        before.queued_events@.len() > 0 ==> {
            &&& r == PollOutput::Ready(before.queued_events@[0])
            &&& after.queued_events@ == before.queued_events@.drop_first()
        },
        after.queries.queries.entries@.len() == before.queries.queries.entries@.len(),
        0 <= k < before.queries.queries.entries@.len() ==> ({
            let (id, q) = before.queries.queries.entries@[k];
            let (id2, q2) = after.queries.queries.entries@[k];
            &&& id2 == id
            &&& q2 == (Query { stats: q2.stats, ..q })
            &&& q2.stats == (QueryStats { start: q2.stats.start, ..q.stats })
            &&& q.stats.start is Some ==> q2.stats.start == q.stats.start
            &&& q.stats.start is None ==> q2.stats.start == Some(now)
        }),
{
    let now = choose|now: Moment|
        is_present(before.clock, now) && #[trigger] polled(
            before,
            after,
            PollInput::Lookup(LookupStep::Idle),
            now,
            r,
        );
    let (mid, state) = choose|mid: Behaviour<S>, state: PoolState|
        {
            &&& mid == (Behaviour { queries: mid.queries, ..before })
            &&& pool_polled(before.queries, mid.queries, LookupStep::Idle, now, state)
            &&& #[trigger] decision_handled(mid, after, state, now, r)
        };
    now
}

/// Polling decides over time by what the clock shows: a query that was started times out when its
/// time is over by then, and not before.
pub proof fn law_clock_decides_over_timeouts<S>(
    before: Behaviour<S>,
    after: Behaviour<S>,
    id: QueryId,
    r: PollOutput,
) -> (now: Moment)
    requires
        before.wf(),
        polled_now(before, after, PollInput::Lookup(LookupStep::TimedOut { id }), r),
        before.queries@.contains_key(id),
        before.queries@[id].stats.start is Some,
    ensures
        shown_by(before.clock, now),
        now.nanos < before.queries@[id].stats.start->0.nanos + before.queries.config.timeout@
            ==> after.queries == before.queries,
{
    let now = choose|now: Moment|
        is_present(before.clock, now) && #[trigger] polled(
            before,
            after,
            PollInput::Lookup(LookupStep::TimedOut { id }),
            now,
            r,
        );
    let (mid, state) = choose|mid: Behaviour<S>, state: PoolState|
        {
            &&& mid == (Behaviour { queries: mid.queries, ..before })
            &&& pool_polled(before.queries, mid.queries, LookupStep::TimedOut { id }, now, state)
            &&& #[trigger] decision_handled(mid, after, state, now, r)
        };
    law_query_times_out_in_time(before.queries, mid.queries, id, now, state);
    now
}

////////////////////////////////////////////////////////////////////////////////
// The mode

/// Whether every connection handler is told the mode, each once and in the order of the
/// connections, and nothing else is queued before `end`.
pub open spec fn tells_handlers<S>(
    before: Behaviour<S>,
    after: Behaviour<S>,
    mode: Mode,
    i: int,
) -> bool {
    let old_events = before.queued_events@;
    let events = after.queued_events@;
    let connections = before.connections.entries@;
    let n = old_events.len() as int;
    &&& events.len() >= n + connections.len()
    &&& old_events.is_prefix_of(events)
    &&& 0 <= i < connections.len() ==> goes_to(
        events[n + i],
        connections[i].1,
        connections[i].0,
        HandlerIn::ReconfigureMode { new_mode: mode },
    )
}

/// Setting a mode makes it that of the node, whatever the external addresses are, and every
/// connection handler is told. Without one, the node serves requests exactly if it has an external
/// address; the application is told if the mode has changed by that.
pub proof fn law_mode_is_set<S>(
    before: Behaviour<S>,
    after: Behaviour<S>,
    mode: Option<Mode>,
    i: int,
)
    requires
        mode_set(before, after, mode),
    ensures
        tells_handlers(before, after, after.mode, i),
        ({
            let n = before.queued_events@.len() + before.connections.entries@.len();
            let events = after.queued_events@;
            let external = external_addrs(before.external_addresses);
            &&& mode matches Some(m) ==> after.mode == m && !after.auto_mode && events.len() == n
            &&& mode is None ==> {
                &&& after.auto_mode
                &&& external.len() > 0 ==> after.mode == Mode::Server
                &&& external.len() == 0 ==> after.mode == Mode::Client
                &&& after.mode == before.mode ==> events.len() == n
                &&& after.mode != before.mode ==> {
                    &&& events.len() == n + 1
                    &&& says(events.last(), Event::ModeChanged { new_mode: after.mode })
                }
            }
        }),
        after == (Behaviour {
            mode: after.mode,
            auto_mode: after.auto_mode,
            no_events_waker: false,
            queued_events: after.queued_events,
            ..before
        }),
{
    let n = before.queued_events@.len() as int;
    assert(after.queued_events@.subrange(0, n) =~= before.queued_events@);
}

/// An external address that is confirmed is one of the node from then on, in front of the others,
/// of which at most nineteen are kept; one that has expired is not. Where the mode is chosen by
/// them it follows, and every connection handler is told.
pub proof fn law_external_addresses_are_followed<S>(
    before: Behaviour<S>,
    after: Behaviour<S>,
    event: FromSwarm,
    addr: Multiaddr,
    i: int,
)
    requires
        news_handled(before, after, event),
        event == (FromSwarm::ExternalAddrConfirmed { addr }) || event == (
        FromSwarm::ExternalAddrExpired { addr }),
    ensures
        ({
            let known = external_addrs(before.external_addresses);
            let now_known = external_addrs(after.external_addresses);
            let changed = (event is ExternalAddrConfirmed) != known.contains(addr);
            &&& event is ExternalAddrConfirmed ==> now_known.len() > 0 && now_known[0] == addr
            &&& event is ExternalAddrConfirmed && !known.contains(addr) ==> {
                &&& known.len() < 20 ==> now_known.len() == known.len() + 1 && now_known.skip(1)
                    == known
                &&& known.len() >= 20 ==> now_known.len() == known.len() && now_known.skip(1)
                    == known.drop_last()
            }
            &&& event is ExternalAddrExpired ==> loses(known, now_known, addr)
            &&& event is ExternalAddrConfirmed && known.contains(addr) ==> loses(
                known,
                now_known.skip(1),
                addr,
            )
            &&& before.auto_mode && changed ==> {
                &&& tells_handlers(before, after, after.mode, i)
                &&& now_known.len() > 0 ==> after.mode == Mode::Server
                &&& now_known.len() == 0 ==> after.mode == Mode::Client
                &&& after.mode != before.mode ==> says(
                    after.queued_events@.last(),
                    Event::ModeChanged { new_mode: after.mode },
                )
            }
            &&& !(before.auto_mode && changed) ==> after == (Behaviour {
                external_addresses: after.external_addresses,
                ..before
            })
        }),
{
    let known = external_addrs(before.external_addresses);
    let now_known = external_addrs(after.external_addresses);
    lemma_loses(known, addr);
    let n = before.queued_events@.len() as int;
    if event is ExternalAddrConfirmed {
        if known.contains(addr) {
            assert(now_known.skip(1) =~= without_item(known, addr));
        } else if known.len() + 1 > 20 {
            assert(now_known.skip(1) =~= known.drop_last());
        } else {
            assert(now_known.skip(1) =~= known);
        }
    }
    if before.auto_mode && (event is ExternalAddrConfirmed) != known.contains(addr) {
        assert(after.queued_events@.subrange(0, n) =~= before.queued_events@);
    }
}

/// An address that the node listens on is one of its own until it no longer does. A node that has
/// no connected peer is to bootstrap soon when it listens on another.
pub proof fn law_listen_addresses_are_followed<S>(
    before: Behaviour<S>,
    after: Behaviour<S>,
    event: FromSwarm,
    own: Multiaddr,
    a: Multiaddr,
)
    requires
        news_handled(before, after, event),
        event matches FromSwarm::NewListenAddr { addr, .. } ==> addr == own,
        event matches FromSwarm::ExpiredListenAddr { addr, .. } ==> addr == own,
        event is NewListenAddr || event is ExpiredListenAddr,
    ensures
        ({
            let known = listen_addrs(before.listen_addresses);
            let now_known = listen_addrs(after.listen_addresses);
            let alone = forall|p: PeerId| !(#[trigger] before.connected_peers@.contains(p));
            &&& event is NewListenAddr ==> (now_known.contains(a) <==> known.contains(a) || a
                == own)
            &&& event is ExpiredListenAddr ==> (now_known.contains(a) <==> known.contains(a) && a
                != own)
            &&& event is NewListenAddr && alone ==> after.bootstrap_status.signals@
                == before.bootstrap_status.signals@.push(Signal::Trigger)
            &&& event is ExpiredListenAddr || !alone ==> after.bootstrap_status
                == before.bootstrap_status
        }),
        after.queries == before.queries,
        after.kbuckets == before.kbuckets,
        after.queued_events == before.queued_events,
{
    if forall|p: PeerId| !(#[trigger] before.connected_peers@.contains(p)) {
        assert(before.connected_peers@ =~= Set::<PeerId>::empty());
    } else {
        let p = choose|p: PeerId| #[trigger] before.connected_peers@.contains(p);
        assert(before.connected_peers@.contains(p));
        assert(!Set::<PeerId>::empty().contains(p));
    }
}

////////////////////////////////////////////////////////////////////////////////
// A new node

/// A new node knows no peer, has nothing to do, serves no requests until it has an external
/// address, and does as it is configured: records are sent again at the interval of their
/// replication, or without such at that of their publication, and never without either; and
/// providers at that of their publication.
pub proof fn law_new_node_does_as_configured<S>(
    b: Behaviour<S>,
    id: PeerId,
    store: S,
    config: Config,
    p: PeerId,
    query: QueryId,
)
    requires
        b.wf(),
        b.is_new(id, store, config),
    ensures
        b.local_peer_id == id,
        b.store == store,
        !knows(b.kbuckets@, p),
        !b.connected_peers@.contains(p),
        !b.queries@.contains_key(query),
        b.queued_events@.len() == 0,
        b.mode == Mode::Client && b.auto_mode,
        b.kbuckets@.size == config.kbucket_config.bucket_size@,
        b.kbuckets@.timeout == config.kbucket_config.pending_timeout,
        b.queries.config == config.query_config,
        b.record_ttl == config.record_ttl,
        b.provider_record_ttl == config.provider_record_ttl,
        b.record_filtering == config.record_filtering,
        b.caching == config.caching,
        b.kbucket_inserts == config.kbucket_inserts,
        ({
            let again = config.record_replication_interval;
            let publish = config.record_publication_interval;
            &&& again is Some || publish is Some <==> b.put_record_job is Some
            &&& again is Some ==> Some(b.put_record_job->0.interval) == again
            &&& again is None && publish is Some ==> Some(b.put_record_job->0.interval) == publish
            &&& b.put_record_job is Some ==> b.put_record_job->0.publish_interval == publish
                && b.put_record_job->0.record_ttl == config.record_ttl
        }),
        config.provider_publication_interval == (match b.add_provider_job {
            Some(job) => Some(job.interval),
            None => None,
        }),
{
    let entries = b.queries.queries.entries@;
    assert(entries_map(entries).contains_key(query) == has_key(entries, query));
}

} // verus!
