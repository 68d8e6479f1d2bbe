//! Laws on what is put into the local store, and on what a search hears from others.

use libp2p_core::Multiaddr;
use libp2p_identity::PeerId;
use libp2p_swarm::ConnectionId;
use vstd::arithmetic::power2::lemma_pow2_pos;
use vstd::arithmetic::power2::pow2;
use vstd::prelude::*;

use crate::assoc::entries_map;
use crate::assoc::has_key;
use crate::assoc::key_index;
use crate::assoc::keys_distinct;
use crate::assoc::lemma_entries_insert;
use crate::assoc::lemma_insert_get;
use crate::kad::answers::learned;
use crate::kad::answers::others;
use crate::kad::behaviour::Behaviour;
use crate::kad::behaviour::Request;
use crate::kad::events::AddProviderContext;
use crate::kad::events::Event;
use crate::kad::events::GetProvidersOk;
use crate::kad::events::GetRecordOk;
use crate::kad::events::InboundRequest;
use crate::kad::events::PutRecordContext;
use crate::kad::events::QueryInfo;
use crate::kad::events::QueryResult;
use crate::kad::events::Quorum;
use crate::kad::inbound::announced_record;
use crate::kad::inbound::as_stored;
use crate::kad::inbound::beyond;
use crate::kad::inbound::decreased;
use crate::kad::inbound::event_handled;
use crate::kad::inbound::event_handled_now;
use crate::kad::inbound::handled;
use crate::kad::inbound::put_replies;
use crate::kad::jobs::lists_key;
use crate::kad::jobs::PutRecordJob;
use crate::kad::kbucket::between;
use crate::kad::kbucket::NodeView;
use crate::kad::kbucket::TableView;
use crate::kad::key::key_of_bytes;
use crate::kad::key::key_of_peer;
use crate::kad::key::lemma_distance_order;
use crate::kad::key::KeyBytes;
use crate::kad::laws::peers_in;
use crate::kad::laws::query_of;
use crate::kad::lookups::announcement_started;
use crate::kad::lookups::keys_of;
use crate::kad::lookups::own_announcement;
use crate::kad::lookups::own_record_removed;
use crate::kad::lookups::providing_started;
use crate::kad::lookups::providing_stopped;
use crate::kad::lookups::published_now;
use crate::kad::lookups::put_to_started;
use crate::kad::lookups::query_in;
use crate::kad::lookups::record_published;
use crate::kad::lookups::record_removed;
use crate::kad::lookups::stored_now_at;
use crate::kad::protocol::kad_peers;
use crate::kad::protocol::HandlerEvent;
use crate::kad::protocol::HandlerIn;
use crate::kad::protocol::KadPeer;
use crate::kad::protocol::KadPeerView;
use crate::kad::protocol::QueryId;
use crate::kad::protocol::RequestId;
use crate::kad::query::addr_views;
use crate::kad::query::PeersKind;
use crate::kad::record::expired;
use crate::kad::record::Key;
use crate::kad::record::ProviderRecord;
use crate::kad::record::Record;
use crate::kad::record::RecordStore;
use crate::kad::record::StoreError;
use crate::kad::record_laws::goes_to;
use crate::kad::record_laws::is_live;
use crate::kad::record_laws::lemma_found_keys;
use crate::kad::record_laws::shown_by;
use crate::kad::replies::new_providers;
use crate::kad::search_laws::far;
use crate::kad::search_laws::is_candidate;
use crate::kad::search_laws::is_quorum;
use crate::kad::search_laws::law_record_is_stored_at_given_peers;
use crate::kad::search_laws::lemma_new_query;
use crate::kad::search_laws::lemma_others_stay;
use crate::kad::search_laws::lemma_span;
use crate::kad::search_laws::lives_until;
use crate::kad::search_laws::names;
use crate::kad::search_laws::searches;
use crate::net::is_present;
use crate::swarm::ToSwarm;
use crate::time::MAX_ELAPSED;
use crate::time::Moment;

verus! {

////////////////////////////////////////////////////////////////////////////////
// What is published

/// A published record is put into the local store as one of the local node, and if it is accepted
/// there, sent to the peers closest to its key. What is sent expires as the record says, or else
/// when its time to live is over, counted from when the clock is read at the call.
pub proof fn law_record_is_published<S: RecordStore>(
    before: Behaviour<S>,
    after: Behaviour<S>,
    record: Record,
    quorum: Quorum,
    r: Result<QueryId, StoreError>,
) -> (now: Moment)
    requires
        before.wf(),
        published_now(before, after, record, quorum, r),
    ensures
        shown_by(before.clock, now),
        before.store.may_put(
            Record {
                key: record.key,
                value: record.value,
                publisher: Some(before.local_peer_id),
                expires: record.expires,
            },
            after.store,
            match r {
                Ok(_) => None,
                Err(e) => Some(e),
            },
        ),
        r matches Ok(id) ==> {
            &&& searches(
                before.queries,
                after.queries,
                before.kbuckets@,
                id,
                record.key@,
                before.queries.config.replication_factor@ as int,
            )
            &&& after.queries@[id].info matches QueryInfo::PutRecord {
                record: sent,
                quorum: n,
                phase,
                context,
            } && sent.key == record.key && sent.value == record.value && sent.publisher == Some(
                before.local_peer_id,
            ) && lives_until(record.expires, before.record_ttl, now, sent.expires) && is_quorum(
                quorum,
                before.queries.config.replication_factor@ as int,
                n@ as int,
            ) && phase is GetClosestPeers && context == PutRecordContext::Publish
        },
        r is Err ==> after.queries == before.queries,
        after == (Behaviour { queries: after.queries, store: after.store, ..before }),
{
    let now = choose|now: Moment|
        is_present(before.clock, now) && #[trigger] record_published(
            before,
            after,
            record,
            quorum,
            now,
            r,
        );
    if let Ok(id) = r {
        lemma_others_stay(before.queries, after.queries, id, query_in(after.queries, id), id);
        lemma_span(before.record_ttl);
    }
    now
}

/// What is stored at given peers expires as the record says, or else when its time to live is
/// over, counted from when the clock is read at the call. The local store is left alone.
pub proof fn law_record_is_sent_with_its_lifetime<S>(
    before: Behaviour<S>,
    after: Behaviour<S>,
    record: Record,
    peers: Seq<PeerId>,
    quorum: Quorum,
    id: QueryId,
    p: PeerId,
) -> (now: Moment)
    requires
        before.wf(),
        stored_now_at(before, after, record, peers, quorum, id),
    ensures
        shown_by(before.clock, now),
        after.queries@.contains_key(id),
        after.queries@[id].info matches QueryInfo::PutRecord { record: sent, .. } && sent.key
            == record.key && sent.value == record.value && sent.publisher == record.publisher
            && lives_until(record.expires, before.record_ttl, now, sent.expires),
        is_candidate(after.queries@[id].peers, p) <==> peers.contains(p),
        after.store == before.store,
        after.queued_events == before.queued_events,
{
    let now = choose|now: Moment|
        is_present(before.clock, now) && #[trigger] put_to_started(
            before,
            after,
            record,
            peers,
            quorum,
            now,
            id,
        );
    let q = query_in(after.queries, id);
    lemma_others_stay(before.queries, after.queries, id, q, id);
    lemma_new_query(q, id, q.info, PeersKind::Fixed, peers, p);
    law_record_is_stored_at_given_peers(before, after, record, peers, quorum, now, id, p);
    now
}

/// A record is removed from the local store if the store returns one of the local node for the
/// key, and only then.
pub proof fn law_only_own_record_is_removed<S: RecordStore>(
    before: Behaviour<S>,
    after: Behaviour<S>,
    key: Key,
) -> (got: Option<Record>)
    requires
        own_record_removed(before, after, key),
    ensures
        before.store.may_get(key, got),
        got is Some && got->0.publisher == Some(before.local_peer_id) ==> before.store.may_remove(
            key,
            after.store,
        ),
        got is None || got->0.publisher != Some(before.local_peer_id) ==> after.store
            == before.store,
        after == (Behaviour { store: after.store, ..before }),
{
    choose|got: Option<Record>| #[trigger]
        before.store.may_get(key, got) && record_removed(before, after, key, got)
}

/// A node that provides a key is put into the local store as a provider of it, without an end and
/// without addresses, and if it is accepted there, announced at the peers closest to the key. A
/// node that no longer does is taken out as a provider of that key.
pub proof fn law_provided_key_is_announced<S: RecordStore>(
    before: Behaviour<S>,
    after: Behaviour<S>,
    key: Key,
    r: Result<QueryId, StoreError>,
    stopped: Behaviour<S>,
) -> (record: ProviderRecord)
    requires
        before.wf(),
        providing_started(before, after, key, r),
        providing_stopped(before, stopped, key),
    ensures
        record.key == key,
        record.provider == before.local_peer_id,
        record.expires is None,
        record.addresses@.len() == 0,
        before.store.may_add_provider(
            record,
            after.store,
            match r {
                Ok(_) => None,
                Err(e) => Some(e),
            },
        ),
        r matches Ok(id) ==> {
            &&& searches(
                before.queries,
                after.queries,
                before.kbuckets@,
                id,
                key@,
                before.queries.config.replication_factor@ as int,
            )
            &&& after.queries@[id].info matches QueryInfo::AddProvider { key: k, phase, context }
                && k == key && phase is GetClosestPeers && context == AddProviderContext::Publish
        },
        r is Err ==> after.queries == before.queries,
        after == (Behaviour { queries: after.queries, store: after.store, ..before }),
        before.store.may_remove_provider(key, before.local_peer_id, stopped.store),
        stopped == (Behaviour { store: stopped.store, ..before }),
{
    let record = choose|record: ProviderRecord|
        #[trigger] own_announcement(record, key, before.local_peer_id) && match r {
            Ok(id) => {
                &&& before.store.may_add_provider(record, after.store, None)
                &&& announcement_started(
                    Behaviour { store: after.store, ..before },
                    after,
                    key,
                    AddProviderContext::Publish,
                    id,
                )
            },
            Err(e) => {
                &&& before.store.may_add_provider(record, after.store, Some(e))
                &&& after == (Behaviour { store: after.store, ..before })
            },
        };
    if let Ok(id) = r {
        lemma_others_stay(before.queries, after.queries, id, query_in(after.queries, id), id);
    }
    record
}

////////////////////////////////////////////////////////////////////////////////
// What is received

/// The number of peers of the routing table that are not farther from a key than the local one.
pub open spec fn not_farther(t: TableView, target: KeyBytes) -> nat {
    t.nodes.filter(|n: NodeView| far(n.peer, target) <= far(t.local, target)).len()
}

/// Two tests that agree on a list keep as much of it.
pub proof fn lemma_same_filter<T>(list: Seq<T>, f: spec_fn(T) -> bool, g: spec_fn(T) -> bool)
    requires
        forall|i: int| 0 <= i < list.len() ==> f(#[trigger] list[i]) == g(list[i]),
    ensures
        list.filter(f).len() == list.filter(g).len(),
    decreases list.len(),
{
    reveal(Seq::filter);
    if list.len() > 0 {
        let front = list.drop_last();
        assert forall|i: int| 0 <= i < front.len() implies f(#[trigger] front[i]) == g(
            front[i],
        ) by {
            assert(front[i] == list[i]);
        }
        assert(list[list.len() - 1] == list.last());
        lemma_same_filter(front, f, g);
    }
}

/// Counting the peers that are not farther is counting by distance.
proof fn lemma_not_farther(t: TableView, target: KeyBytes)
    ensures
        t.count_between(target) == not_farther(t, target),
{
    let f = between(t.local_key(), target);
    let g = |n: NodeView| far(n.peer, target) <= far(t.local, target);
    assert forall|i: int| 0 <= i < t.nodes.len() implies f(#[trigger] t.nodes[i]) == g(
        t.nodes[i],
    ) by {
        let a = key_of_peer(t.nodes[i].peer).spec_distance(target);
        let b = key_of_peer(t.local).spec_distance(target);
        lemma_distance_order(a, b);
        lemma_distance_order(b, a);
    }
    lemma_same_filter(t.nodes, f, g);
}

/// Whether a received record is kept until it should be. Without a time to live that is until it
/// says itself. With one, it is kept no longer than that time, counted from now, halved once for
/// each peer beyond the replication factor that is not farther from the key than the local node.
pub open spec fn kept_until<S>(
    b: Behaviour<S>,
    record: Record,
    now: Moment,
    until: Option<Moment>,
) -> bool {
    let near = not_farther(b.kbuckets@, key_of_bytes(record.key@));
    let factor = b.queries.config.replication_factor@;
    let halvings = if near > factor {
        (near - factor) as nat
    } else {
        0nat
    };
    match b.record_ttl {
        None => until == record.expires,
        Some(ttl) => {
            let end = now.nanos + (ttl.secs as nat / pow2(halvings)) * 1_000_000_000;
            until matches Some(t) && {
                &&& record.expires is None ==> t.nanos == end
                &&& record.expires matches Some(e) ==> t.nanos == (if e.nanos <= end {
                    e.nanos as int
                } else {
                    end
                })
            }
        },
    }
}

/// A received record is kept until it should be.
proof fn lemma_kept_until<S>(b: Behaviour<S>, record: Record, now: Moment)
    requires
        b.wf(),
        now.nanos <= MAX_ELAPSED,
        b.kbuckets@.nodes.len() <= u32::MAX,
    ensures
        kept_until(b, record, now, as_stored(b, record, now).expires),
{
    let t = b.kbuckets@;
    let target = key_of_bytes(record.key@);
    lemma_not_farther(t, target);
    t.nodes.lemma_filter_len(between(t.local_key(), target));
    lemma_span(b.record_ttl);
    if let Some(ttl) = b.record_ttl {
        let exp = beyond(t.count_between(target), b.queries.config.replication_factor@);
        let secs = ttl.secs as nat;
        let parts = pow2(exp as nat);
        lemma_pow2_pos(exp as nat);
        assert(secs / parts <= secs) by (nonlinear_arith)
            requires
                parts > 0,
        ;
        assert(decreased(ttl, exp)@ == (secs / parts) * 1_000_000_000);
    }
}

/// Whether a received record is kept as it was sent, but for when it expires.
pub open spec fn kept_as<S>(b: Behaviour<S>, record: Record, now: Moment, kept: Record) -> bool {
    &&& kept.key == record.key
    &&& kept.value == record.value
    &&& kept.publisher == record.publisher
    &&& kept_until(b, record, now, kept.expires)
}

/// Whether one thing more is queued.
pub open spec fn queues_also(before: Seq<Request>, after: Seq<Request>) -> bool {
    after.len() == before.len() + 1 && before.is_prefix_of(after)
}

/// A peer that asks to store a record is answered that it is stored, unless the store refuses it.
/// A record of the local node is left alone. Any other one is left out of the next run of the job
/// that replicates records, and unless it has expired, put into the store, or handed to the
/// application if that filters what is stored.
pub proof fn law_received_record_is_kept<S: RecordStore>(
    before: Behaviour<S>,
    after: Behaviour<S>,
    source: PeerId,
    connection: ConnectionId,
    record: Record,
    request_id: RequestId,
    key: Key,
) -> (seen: (Moment, Record))
    requires
        before.wf(),
        before.kbuckets@.nodes.len() <= u32::MAX,
        event_handled_now(
            before,
            after,
            source,
            connection,
            HandlerEvent::PutRecord { record, request_id },
        ),
    ensures
        shown_by(before.clock, seen.0),
        kept_as(before, record, seen.0, seen.1),
        ({
            let (now, kept) = seen;
            let old_events = before.queued_events@;
            let events = after.queued_events@;
            let n = old_events.len() as int;
            let own = record.publisher == Some(before.local_peer_id);
            let answer = HandlerIn::PutRecordRes {
                key: record.key,
                value: record.value,
                request_id,
            };
            &&& old_events.is_prefix_of(events)
            &&& own || !is_live(kept.expires, now) ==> {
                &&& after.store == before.store
                &&& events.len() == n + 1
                &&& goes_to(events[n], source, connection, answer)
            }
            &&& own ==> after.put_record_job == before.put_record_job
            &&& !own ==> match before.put_record_job {
                None => after.put_record_job is None,
                Some(job) => after.put_record_job matches Some(job2) && job2.ready == job.ready && (
                lists_key(job2.skipped@, key) <==> lists_key(job.skipped@, key) || key@
                    == record.key@),
            }
            &&& !own && is_live(kept.expires, now) && before.record_filtering is Unfiltered ==> {
                ||| {
                    &&& before.store.may_put(kept, after.store, None)
                    &&& events.len() == n + 2
                    &&& hears_of(
                        events[n],
                        InboundRequest::PutRecord { source, connection, record: None },
                    )
                    &&& goes_to(events[n + 1], source, connection, answer)
                }
                ||| {
                    &&& exists|e: StoreError| before.store.may_put(kept, after.store, Some(e))
                    &&& events.len() == n + 1
                    &&& goes_to(events[n], source, connection, HandlerIn::Reset(request_id))
                }
            }
            &&& !own && is_live(kept.expires, now) && before.record_filtering is FilterBoth ==> {
                &&& after.store == before.store
                &&& events.len() == n + 2
                &&& hears_of(
                    events[n],
                    InboundRequest::PutRecord { source, connection, record: Some(kept) },
                )
                &&& goes_to(events[n + 1], source, connection, answer)
            }
        }),
        after == (Behaviour {
            queued_events: after.queued_events,
            put_record_job: after.put_record_job,
            store: after.store,
            ..before
        }),
{
    let now = choose|now: Moment|
        is_present(before.clock, now) && #[trigger] event_handled(
            before,
            after,
            source,
            connection,
            HandlerEvent::PutRecord { record, request_id },
            now,
        );
    let kept = as_stored(before, record, now);
    lemma_kept_until(before, record, now);
    let events = after.queued_events@;
    let n = before.queued_events@.len() as int;
    let own = record.publisher == Some(before.local_peer_id);
    if !own && !expired(kept.expires, now) && before.record_filtering is Unfiltered {
        let error = choose|error: Option<StoreError>| #[trigger]
            before.store.may_put(kept, after.store, error) && events == before.queued_events@
                + put_replies(source, connection, request_id, record, error);
        assert(before.store.may_put(kept, after.store, error));
        match error {
            Some(e) => {
                assert(before.store.may_put(kept, after.store, Some(e)));
            },
            None => {},
        }
    }
    assert(before.queued_events@.is_prefix_of(events)) by {
        assert(events.subrange(0, n) =~= before.queued_events@);
    }
    if let Some(job) = before.put_record_job {
        if !own {
            let job2 = after.put_record_job->0;
            lemma_skips(job, job2, record.key, key);
        }
    }
    (now, kept)
}

/// Whether the application is told of a request that was handled.
pub open spec fn hears_of(request: Request, inbound: InboundRequest) -> bool {
    request matches ToSwarm::GenerateEvent(Event::InboundRequest { request: r }) && r == inbound
}

/// What is left out of the next run of a job stays left out, with one thing more.
proof fn lemma_skips(job: PutRecordJob, job2: PutRecordJob, skipped: Key, key: Key)
    requires
        job.skipping(job2, skipped),
    ensures
        lists_key(job2.skipped@, key) <==> lists_key(job.skipped@, key) || key@ == skipped@,
{
    let list = job.skipped@;
    let more = job2.skipped@;
    if lists_key(list, skipped) {
        if key@ == skipped@ {
            let i = choose|i: int| 0 <= i < list.len() && (#[trigger] list[i])@ == skipped@;
            assert(list[i]@ == key@);
        }
    } else {
        assert(more[list.len() as int] == skipped);
        if lists_key(list, key) {
            let i = choose|i: int| 0 <= i < list.len() && (#[trigger] list[i])@ == key@;
            assert(more[i]@ == key@);
        }
        if lists_key(more, key) {
            let i = choose|i: int| 0 <= i < more.len() && (#[trigger] more[i])@ == key@;
            if i < list.len() {
                assert(list[i]@ == key@);
            }
        }
    }
}

/// A peer that announces itself as a provider is put into the store as such, with the addresses
/// that it gives and for as long as provider records live, or is handed to the application if that
/// filters what is stored. The application is told, unless the store refuses.
pub proof fn law_announced_provider_is_kept<S: RecordStore>(
    before: Behaviour<S>,
    after: Behaviour<S>,
    source: PeerId,
    connection: ConnectionId,
    key: Key,
    provider: KadPeer,
) -> (seen: (Moment, ProviderRecord))
    requires
        event_handled_now(
            before,
            after,
            source,
            connection,
            HandlerEvent::AddProvider { key, provider },
        ),
    ensures
        shown_by(before.clock, seen.0),
        ({
            let (now, record) = seen;
            let old_events = before.queued_events@;
            let events = after.queued_events@;
            let heard = provider.node_id == source && source != before.local_peer_id;
            &&& record.key == key
            &&& record.provider == source || !heard
            &&& record.addresses@ == provider.multiaddrs@
            &&& before.provider_record_ttl matches Some(ttl) ==> (record.expires matches Some(t)
                && t.nanos == now.nanos + ttl@)
            &&& before.provider_record_ttl is None ==> record.expires is None
            &&& !heard ==> after == before
            &&& heard && before.record_filtering is Unfiltered ==> {
                ||| {
                    &&& before.store.may_add_provider(record, after.store, None)
                    &&& queues_also(old_events, events)
                    &&& hears_of(events.last(), InboundRequest::AddProvider { record: None })
                }
                ||| {
                    &&& exists|e: StoreError|
                        before.store.may_add_provider(record, after.store, Some(e))
                    &&& events == old_events
                }
            }
            &&& heard && before.record_filtering is FilterBoth ==> {
                &&& after.store == before.store
                &&& queues_also(old_events, events)
                &&& hears_of(events.last(), InboundRequest::AddProvider { record: Some(record) })
            }
        }),
        after == (Behaviour { queued_events: after.queued_events, store: after.store, ..before }),
{
    let now = choose|now: Moment|
        is_present(before.clock, now) && #[trigger] event_handled(
            before,
            after,
            source,
            connection,
            HandlerEvent::AddProvider { key, provider },
            now,
        );
    let record = announced_record(key, provider, before.provider_record_ttl, now);
    lemma_span(before.provider_record_ttl);
    let events = after.queued_events@;
    let n = before.queued_events@.len() as int;
    let heard = provider.node_id == source && source != before.local_peer_id;
    if heard && before.record_filtering is Unfiltered {
        let error = choose|error: Option<StoreError>| #[trigger]
            before.store.may_add_provider(record, after.store, error) && events == (
            if error is None {
                before.queued_events@.push(handled(InboundRequest::AddProvider { record: None }))
            } else {
                before.queued_events@
            });
        match error {
            Some(e) => {
                assert(before.store.may_add_provider(record, after.store, Some(e)));
            },
            None => {},
        }
    }
    if events.len() == n + 1 {
        assert(events.subrange(0, n) =~= before.queued_events@);
    }
    (now, record)
}

////////////////////////////////////////////////////////////////////////////////
// What a search hears

/// A record that a peer has sent is reported to the application as found there, while the search
/// for it runs, and the search remembers that there is one. An answer without a record is not
/// reported.
pub proof fn law_found_record_is_reported<S: RecordStore>(
    before: Behaviour<S>,
    after: Behaviour<S>,
    source: PeerId,
    connection: ConnectionId,
    event: HandlerEvent,
    now: Moment,
    id: QueryId,
)
    requires
        before.wf(),
        event_handled(before, after, source, connection, event, now),
        event matches HandlerEvent::GetRecordRes { query_id, .. } && query_id == id,
    ensures
        ({
            let record = event->GetRecordRes_record;
            let asked = before.queries@.contains_key(id) && before.queries@[id].info is GetRecord;
            &&& asked && record is Some ==> {
                &&& queues_also(before.queued_events@, after.queued_events@)
                &&& after.queued_events@.last() matches ToSwarm::GenerateEvent(
                    Event::OutboundQueryProgressed {
                        id: query,
                        result: QueryResult::GetRecord(Ok(GetRecordOk::FoundRecord(found))),
                        step,
                        stats,
                    },
                ) && query == id && found.peer == Some(source) && Some(found.record) == record
                    && !step.last && step.count@
                    == before.queries@[id].info->GetRecord_step.count@ && stats
                    == before.queries@[id].stats
                &&& after.queries@[id].info matches QueryInfo::GetRecord {
                    key,
                    step,
                    found_a_record,
                    cache_candidates,
                } && key == before.queries@[id].info->GetRecord_key && found_a_record && step.count@
                    == before.queries@[id].info->GetRecord_step.count@ + 1
            }
            &&& !(asked && record is Some) ==> after.queued_events == before.queued_events
            &&& asked && record is None ==> (after.queries@[id].info matches QueryInfo::GetRecord {
                key,
                step,
                found_a_record,
                ..
            } && key == before.queries@[id].info->GetRecord_key && found_a_record
                == before.queries@[id].info->GetRecord_found_a_record && step
                == before.queries@[id].info->GetRecord_step)
        }),
{
    let entries = before.queries.queries.entries@;
    assert(entries_map(entries).contains_key(id) == has_key(entries, id));
    let n = before.queued_events@.len() as int;
    let events = after.queued_events@;
    if has_key(entries, id) {
        let at = key_index(entries, id);
        let q2 = after.queries.queries.entries@[at].1;
        lemma_others_stay(before.queries, after.queries, id, q2, id);
        if events.len() == n + 1 {
            assert(events.subrange(0, n) =~= before.queued_events@);
        }
    }
}

/// Whether the last element of a list about a peer gives it the given addresses.
pub open spec fn last_named(list: Seq<KadPeerView>, p: PeerId, addrs: Seq<Multiaddr>) -> bool {
    exists|i: int|
        0 <= i < list.len() && (#[trigger] list[i]).peer == p && list[i].addrs == addrs && (forall|
            j: int,
        |
            i < j < list.len() ==> (#[trigger] list[j]).peer != p)
}

/// The addresses that are learned of a peer are those of the last element about it.
proof fn lemma_learned_last(
    known: Seq<(PeerId, Seq<Multiaddr>)>,
    list: Seq<KadPeerView>,
    local: PeerId,
    p: PeerId,
)
    requires
        keys_distinct(known),
    ensures
        keys_distinct(learned(known, others(list, local))),
        p != local && names(list, p) ==> has_key(learned(known, others(list, local)), p)
            && last_named(
            list,
            p,
            learned(known, others(list, local))[key_index(
                learned(known, others(list, local)),
                p,
            )].1,
        ),
        p == local || !names(list, p) ==> {
            &&& has_key(learned(known, others(list, local)), p) <==> has_key(known, p)
            &&& has_key(known, p) ==> learned(known, others(list, local))[key_index(
                learned(known, others(list, local)),
                p,
            )].1 == known[key_index(known, p)].1
        },
    decreases list.len(),
{
    let f = |x: KadPeerView| x.peer != local;
    let kept = others(list, local);
    assert(kept == list.filter(f));
    reveal(Seq::filter);
    if list.len() > 0 {
        let front = list.drop_last();
        let n = list.len() - 1;
        let last = list.last();
        assert(list[n] == last);
        lemma_learned_last(known, front, local, p);
        let some = others(front, local);
        assert(some == front.filter(f));
        let so_far = learned(known, some);
        if last.peer != local {
            assert(kept == some.push(last));
            assert(kept.drop_last() =~= some);
            assert(kept.last() == last);
            lemma_entries_insert(so_far, last.peer, last.addrs);
            lemma_insert_get(so_far, last.peer, last.addrs, p);
            if last.peer == p {
                assert(last_named(list, p, last.addrs));
            }
        } else {
            assert(kept == some);
        }
        if names(front, p) {
            let i = choose|i: int| 0 <= i < front.len() && (#[trigger] front[i]).peer == p;
            assert(list[i].peer == p);
        }
        if last.peer != p {
            if names(list, p) {
                let i = choose|i: int| 0 <= i < list.len() && (#[trigger] list[i]).peer == p;
                assert(front[i].peer == p);
            }
            if p != local && names(front, p) {
                let addrs = so_far[key_index(so_far, p)].1;
                let i = choose|i: int|
                    0 <= i < front.len() && (#[trigger] front[i]).peer == p && front[i].addrs
                        == addrs && (forall|j: int|
                        i < j < front.len() ==> (#[trigger] front[j]).peer != p);
                assert(list[i] == front[i]);
                assert forall|j: int| i < j < list.len() implies (#[trigger] list[j]).peer != p by {
                    if j < n {
                        assert(front[j] == list[j]);
                    }
                }
                assert(last_named(list, p, addrs));
            }
        }
    } else {
        assert(kept =~= Seq::empty());
    }
}

/// A query learns the addresses of every peer that an answer names, other than the local one, and
/// keeps those that it knew of the others.
pub proof fn law_named_addresses_are_learned<S: RecordStore>(
    before: Behaviour<S>,
    after: Behaviour<S>,
    source: PeerId,
    connection: ConnectionId,
    event: HandlerEvent,
    now: Moment,
    id: QueryId,
    p: PeerId,
)
    requires
        before.wf(),
        event_handled(before, after, source, connection, event, now),
        query_of(event) == Some(id),
        before.queries@.contains_key(id),
    ensures
        ({
            let known = before.queries@[id].peers.addresses@;
            let now_known = after.queries@[id].peers.addresses@;
            let list = peers_in(event);
            &&& p != before.local_peer_id && names(list, p) ==> now_known.contains_key(p)
                && last_named(list, p, now_known[p]@)
            &&& p == before.local_peer_id || !names(list, p) ==> {
                &&& now_known.contains_key(p) <==> known.contains_key(p)
                &&& known.contains_key(p) ==> now_known[p]@ == known[p]@
            }
        }),
{
    let entries = before.queries.queries.entries@;
    let local = before.local_peer_id;
    let list = peers_in(event);
    assert(entries_map(entries).contains_key(id) == has_key(entries, id));
    let at = key_index(entries, id);
    let q = entries[at].1;
    let q2 = after.queries.queries.entries@[at].1;
    assert(q.wf());
    lemma_others_stay(before.queries, after.queries, id, q2, id);
    let known = q.peers.addresses.entries@;
    let now_known = q2.peers.addresses.entries@;
    let views = addr_views(known);
    assert(addr_views(now_known) == learned(views, others(list, local)));
    assert forall|i: int, j: int| 0 <= i < j < views.len() implies (#[trigger] views[i]).0 != (
    #[trigger] views[j]).0 by {
        assert(known[i].0 == views[i].0 && known[j].0 == views[j].0);
    }
    lemma_learned_last(views, list, local, p);
    lemma_found_keys(known, views, p);
    lemma_found_keys(now_known, learned(views, others(list, local)), p);
}

/// Whether a request reports the providers that a peer has named.
pub open spec fn reports_named(
    request: Request,
    id: QueryId,
    key: Key,
    count: int,
    list: Seq<KadPeerView>,
    known: Seq<PeerId>,
    p: PeerId,
) -> bool {
    request matches ToSwarm::GenerateEvent(
        Event::OutboundQueryProgressed {
            id: query,
            result: QueryResult::GetProviders(
                Ok(GetProvidersOk::FoundProviders { key: k, providers }),
            ),
            step,
            ..
        },
    ) && {
        &&& query == id && k == key && step.count@ == count && !step.last
        &&& providers@.contains_key(p) <==> names(list, p) && !known.contains(p)
        &&& providers@.contains_key(p) ==> last_named(list, p, providers@[p]@)
    }
}

/// The new providers of a list are those that it names and that are not known, with their last
/// addresses.
proof fn lemma_new_last(list: Seq<KadPeerView>, known: Seq<PeerId>, p: PeerId)
    ensures
        keys_distinct(new_providers(list, known)),
        has_key(new_providers(list, known), p) <==> names(list, p) && !known.contains(p),
        has_key(new_providers(list, known), p) ==> last_named(
            list,
            p,
            new_providers(list, known)[key_index(new_providers(list, known), p)].1,
        ),
    decreases list.len(),
{
    if list.len() > 0 {
        let front = list.drop_last();
        let n = list.len() - 1;
        let last = list.last();
        assert(list[n] == last);
        lemma_new_last(front, known, p);
        let so_far = new_providers(front, known);
        if names(front, p) {
            let i = choose|i: int| 0 <= i < front.len() && (#[trigger] front[i]).peer == p;
            assert(list[i].peer == p);
        }
        if !known.contains(last.peer) {
            lemma_entries_insert(so_far, last.peer, last.addrs);
            lemma_insert_get(so_far, last.peer, last.addrs, p);
            if last.peer == p {
                assert(last_named(list, p, last.addrs));
            }
        }
        if last.peer != p {
            if names(list, p) {
                let i = choose|i: int| 0 <= i < list.len() && (#[trigger] list[i]).peer == p;
                assert(front[i].peer == p);
            }
            if has_key(so_far, p) {
                let addrs = so_far[key_index(so_far, p)].1;
                let i = choose|i: int|
                    0 <= i < front.len() && (#[trigger] front[i]).peer == p && front[i].addrs
                        == addrs && (forall|j: int|
                        i < j < front.len() ==> (#[trigger] front[j]).peer != p);
                assert(list[i] == front[i]);
                assert forall|j: int| i < j < list.len() implies (#[trigger] list[j]).peer != p by {
                    if j < n {
                        assert(front[j] == list[j]);
                    }
                }
                assert(last_named(list, p, addrs));
            }
        }
    }
}

/// While a search for providers runs, each provider that a peer names and that was not reported
/// before is reported with its addresses, and no other is. The search remembers all of them.
pub proof fn law_named_providers_are_reported<S: RecordStore>(
    before: Behaviour<S>,
    after: Behaviour<S>,
    source: PeerId,
    connection: ConnectionId,
    event: HandlerEvent,
    now: Moment,
    id: QueryId,
    p: PeerId,
)
    requires
        before.wf(),
        event_handled(before, after, source, connection, event, now),
        event matches HandlerEvent::GetProvidersRes { query_id, .. } && query_id == id,
    ensures
        ({
            let list = kad_peers(event->provider_peers@);
            let asked = before.queries@.contains_key(id)
                && before.queries@[id].info is GetProviders;
            let info = before.queries@[id].info;
            let known = info->GetProviders_reported@;
            &&& asked ==> {
                &&& queues_also(before.queued_events@, after.queued_events@)
                &&& reports_named(
                    after.queued_events@.last(),
                    id,
                    info->GetProviders_key,
                    info->GetProviders_step.count@ as int,
                    list,
                    known,
                    p,
                )
                &&& after.queries@[id].info matches QueryInfo::GetProviders {
                    key,
                    reported,
                    providers_found,
                    step,
                } && key == info->GetProviders_key && providers_found == reported@.len()
                    && step.count@ == info->GetProviders_step.count@ + 1 && (reported@.contains(p)
                    <==> known.contains(p) || names(list, p))
            }
            &&& !asked ==> after.queued_events == before.queued_events
        }),
{
    let entries = before.queries.queries.entries@;
    assert(entries_map(entries).contains_key(id) == has_key(entries, id));
    let n = before.queued_events@.len() as int;
    let events = after.queued_events@;
    if has_key(entries, id) {
        let at = key_index(entries, id);
        let q = entries[at].1;
        let q2 = after.queries.queries.entries@[at].1;
        lemma_others_stay(before.queries, after.queries, id, q2, id);
        if q.info is GetProviders {
            assert(events.subrange(0, n) =~= before.queued_events@);
            let list = match event {
                HandlerEvent::GetProvidersRes { provider_peers, .. } => kad_peers(
                    provider_peers@,
                ),
                _ => Seq::empty(),
            };
            let known = q.info->GetProviders_reported@;
            let found = new_providers(list, known);
            lemma_new_last(list, known, p);
            let providers = match events.last() {
                ToSwarm::GenerateEvent(
                    Event::OutboundQueryProgressed {
                        result: QueryResult::GetProviders(
                            Ok(GetProvidersOk::FoundProviders { providers, .. }),
                        ),
                        ..
                    },
                ) => providers,
                _ => arbitrary(),
            };
            lemma_found_keys(providers.entries@, found, p);
            let keys = keys_of(found);
            let all = known + keys;
            if has_key(found, p) {
                assert(all[known.len() + key_index(found, p)] == p);
            }
            if known.contains(p) {
                assert(all[known.index_of(p)] == p);
            }
            if all.contains(p) {
                let i = all.index_of(p);
                if i < known.len() {
                    assert(known[i] == p);
                } else {
                    assert(found[i - known.len()].0 == p);
                }
            }
        }
    }
}

} // verus!
