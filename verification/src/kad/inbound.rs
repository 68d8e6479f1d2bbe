//! How the behaviour handles what connection handlers report.

use libp2p_core::Multiaddr;
use libp2p_identity::PeerId;
use libp2p_swarm::ConnectionId;
use vstd::arithmetic::power2::lemma2_to64;
use vstd::arithmetic::power2::pow2;
use vstd::prelude::*;

use crate::assoc::entries_insert;
use crate::assoc::has_key;
use crate::assoc::key_index;
use crate::assoc::lemma_key_index;
use crate::assoc::Ident;
use crate::kad::answers::one_query;
use crate::kad::answers::others;
use crate::kad::answers::own_addresses;
use crate::kad::answers::peers_named;
use crate::kad::answers::providers_told;
use crate::kad::behaviour::queued_one;
use crate::kad::behaviour::queued_two;
use crate::kad::behaviour::told;
use crate::kad::behaviour::Behaviour;
use crate::kad::behaviour::Request;
use crate::kad::config::Caching;
use crate::kad::config::StoreInserts;
use crate::kad::events::Event;
use crate::kad::events::GetProvidersOk;
use crate::kad::events::GetRecordOk;
use crate::kad::events::InboundRequest;
use crate::kad::events::PeerRecord;
use crate::kad::events::QueryResult;
use crate::kad::jobs::PutRecordJob;
use crate::kad::kbucket::NodeStatus;
use crate::kad::key::key_of_bytes;
use crate::kad::key::lemma_pow2_monotonic;
use crate::kad::key::KeyBytes;
use crate::kad::lookups::closest_answer;
use crate::kad::lookups::found_locally;
use crate::kad::lookups::is_peer;
use crate::kad::lookups::reports;
use crate::kad::lookups::reports_providers;
use crate::kad::lookups::store_cleaned;
use crate::kad::pool::peer_failed;
use crate::kad::protocol::kad_peers;
use crate::kad::protocol::HandlerEvent;
use crate::kad::protocol::HandlerIn;
use crate::kad::protocol::KadPeer;
use crate::kad::protocol::KadPeerView;
use crate::kad::protocol::QueryId;
use crate::kad::protocol::RequestId;
use crate::kad::query::lemma_pool_put;
use crate::kad::query::Query;
use crate::kad::query::QueryPool;
use crate::kad::record::error_of;
use crate::kad::record::expired;
use crate::kad::record::Key;
use crate::kad::record::ProviderRecord;
use crate::kad::record::Record;
use crate::kad::record::RecordStore;
use crate::kad::record::StoreError;
use crate::kad::replies::new_providers;
use crate::kad::replies::providers_noted;
use crate::kad::replies::record_noted;
use crate::kad::replies::stored_at;
use crate::kad::routing::connection_changed;
use crate::net::is_present;
use crate::swarm::ConnectedPoint;
use crate::swarm::NotifyHandler;
use crate::swarm::ToSwarm;
use crate::time::option_min;
use crate::time::spec_option_min;
use crate::time::Duration;
use crate::time::Moment;
use crate::time::MAX_ELAPSED;

verus! {

/// A span of time, halved `exp` times, in whole seconds.
pub open spec fn decreased(ttl: Duration, exp: u32) -> Duration {
    Duration { secs: (ttl.secs as nat / pow2(exp as nat)) as u64, nanos: 0 }
}

/// Halves a span of time `exp` times, in whole seconds.
pub fn exp_decrease(ttl: Duration, exp: u32) -> (r: Duration)
    ensures
        r == decreased(ttl, exp),
{
    let secs: u64 = ttl.as_secs();
    if exp < 64 {
        let e: u64 = exp as u64;
        proof {
            vstd::bits::lemma_u64_shr_is_div(secs, e);
        }
        Duration::from_secs(secs >> e)
    } else {
        proof {
            lemma2_to64();
            lemma_pow2_monotonic(64, exp as nat);
            let p = pow2(exp as nat);
            assert(secs as nat / p == 0) by (nonlinear_arith)
                requires
                    0 <= secs < p,
            ;
        }
        Duration::from_secs(0)
    }
}

/// By how much `between` exceeds `k`.
pub open spec fn beyond(between: nat, k: usize) -> u32 {
    (if between > k {
        (between - k) as usize
    } else {
        0usize
    }) as u32
}

/// When a record that another peer sent expires, if `exceeding` more peers than are needed are
/// closer to its key: when it says itself or when its time to live is over, whichever comes
/// first. Only a record with neither is kept for ever.
pub open spec fn received_until(
    expires: Option<Moment>,
    ttl: Option<Duration>,
    exceeding: u32,
    now: Moment,
) -> Option<Moment> {
    let expiration = match ttl {
        Some(ttl) => Some(now.spec_add(decreased(ttl, exceeding))),
        None => None,
    };
    spec_option_min(expires, expiration)
}

/// A record that another peer sent, as it is stored.
pub open spec fn as_stored<S>(b: Behaviour<S>, record: Record, now: Moment) -> Record {
    let between = b.kbuckets@.count_between(key_of_bytes(record.key@));
    Record {
        expires: received_until(
            record.expires,
            b.record_ttl,
            beyond(between, b.queries.config.replication_factor@),
            now,
        ),
        ..record
    }
}

/// Something that is told to the handler of a connection.
pub open spec fn notice(peer_id: PeerId, connection: ConnectionId, event: HandlerIn) -> Request {
    ToSwarm::NotifyHandler { peer_id, handler: NotifyHandler::One(connection), event }
}

/// The event that tells the application of a request that was handled.
pub open spec fn handled(request: InboundRequest) -> Request {
    told(Event::InboundRequest { request })
}

/// The answer that a record was stored.
pub open spec fn put_answer(
    source: PeerId,
    connection: ConnectionId,
    request_id: RequestId,
    record: Record,
) -> Request {
    notice(
        source,
        connection,
        HandlerIn::PutRecordRes { key: record.key, value: record.value, request_id },
    )
}

/// What follows when a record was to be stored: an answer, or a reset if there was an error.
pub open spec fn put_replies(
    source: PeerId,
    connection: ConnectionId,
    request_id: RequestId,
    record: Record,
    error: Option<StoreError>,
) -> Seq<Request> {
    match error {
        None => seq![
            handled(InboundRequest::PutRecord { source, connection, record: None }),
            put_answer(source, connection, request_id, record),
        ],
        Some(_) => seq![notice(source, connection, HandlerIn::Reset(request_id))],
    }
}

/// Whether the job that replicates records leaves one out of its next run.
pub open spec fn job_skips(
    before: Option<PutRecordJob>,
    after: Option<PutRecordJob>,
    key: Key,
) -> bool {
    match before {
        Some(job) => after matches Some(job2) && job.skipping(job2, key),
        None => after is None,
    }
}

/// What the request of a peer to store a record changes.
pub open spec fn record_handled<S: RecordStore>(
    before: Behaviour<S>,
    after: Behaviour<S>,
    source: PeerId,
    connection: ConnectionId,
    request_id: RequestId,
    record: Record,
    now: Moment,
) -> bool {
    let kept = as_stored(before, record, now);
    let old_events = before.queued_events@;
    let events = after.queued_events@;
    let answer = put_answer(source, connection, request_id, record);
    if record.publisher == Some(before.local_peer_id) {
        &&& after == (Behaviour { queued_events: after.queued_events, ..before })
        &&& events == old_events.push(answer)
    } else {
        &&& after == (Behaviour {
            queued_events: after.queued_events,
            put_record_job: after.put_record_job,
            store: after.store,
            ..before
        })
        &&& job_skips(before.put_record_job, after.put_record_job, record.key)
        &&& if expired(kept.expires, now) {
            after.store == before.store && events == old_events.push(answer)
        } else {
            match before.record_filtering {
                StoreInserts::Unfiltered => exists|error: Option<StoreError>| #[trigger]
                    before.store.may_put(kept, after.store, error) && events == old_events
                        + put_replies(source, connection, request_id, record, error),
                StoreInserts::FilterBoth => {
                    &&& after.store == before.store
                    &&& events == old_events.push(
                        handled(
                            InboundRequest::PutRecord { source, connection, record: Some(kept) },
                        ),
                    ).push(answer)
                },
            }
        }
    }
}

/// The provider record that an announcement gives.
pub open spec fn announced_record(
    key: Key,
    provider: KadPeer,
    ttl: Option<Duration>,
    now: Moment,
) -> ProviderRecord {
    ProviderRecord {
        key,
        provider: provider.node_id,
        expires: match ttl {
            Some(ttl) => Some(now.spec_add(ttl)),
            None => None,
        },
        addresses: provider.multiaddrs,
    }
}

/// What the announcement of a provider changes.
pub open spec fn provider_handled<S: RecordStore>(
    before: Behaviour<S>,
    after: Behaviour<S>,
    key: Key,
    provider: KadPeer,
    now: Moment,
) -> bool {
    let record = announced_record(key, provider, before.provider_record_ttl, now);
    let old_events = before.queued_events@;
    let events = after.queued_events@;
    if provider.node_id == before.local_peer_id {
        after == before
    } else {
        &&& after == (Behaviour {
            queued_events: after.queued_events,
            store: after.store,
            ..before
        })
        &&& match before.record_filtering {
            StoreInserts::Unfiltered => exists|error: Option<StoreError>| #[trigger]
                before.store.may_add_provider(record, after.store, error) && events == (
                if error is None {
                    old_events.push(handled(InboundRequest::AddProvider { record: None }))
                } else {
                    old_events
                }),
            StoreInserts::FilterBoth => {
                &&& after.store == before.store
                &&& events == old_events.push(
                    handled(InboundRequest::AddProvider { record: Some(record) }),
                )
            },
        }
    }
}

/// The address at which a peer was dialed.
pub open spec fn dialed_address(endpoint: ConnectedPoint) -> Option<Multiaddr> {
    match endpoint {
        ConnectedPoint::Dialer { address, .. } => Some(address),
        ConnectedPoint::Listener { .. } => None,
    }
}

/// What the request of a peer for the peers closest to a key changes.
pub open spec fn nodes_asked<S>(
    before: Behaviour<S>,
    after: Behaviour<S>,
    source: PeerId,
    connection: ConnectionId,
    key: Seq<u8>,
    request_id: RequestId,
) -> bool {
    let closer = closest_answer(
        before.kbuckets@,
        key_of_bytes(key),
        source,
        before.queries.config.replication_factor@ as nat,
    );
    let n = before.queued_events@.len() as int;
    let events = after.queued_events@;
    &&& after == (Behaviour { queued_events: after.queued_events, ..before })
    &&& queued_two(before.queued_events@, events)
    &&& events[n] == handled(
        InboundRequest::FindNode { num_closer_peers: closer.len() as usize },
    )
    &&& events.last() matches ToSwarm::NotifyHandler {
        peer_id,
        handler,
        event: HandlerIn::FindNodeRes { closer_peers, request_id: id },
    } && peer_id == source && handler == NotifyHandler::One(connection) && id == request_id
        && kad_peers(closer_peers@) == closer
}

/// What the request of a peer for the providers of a key changes, when the given providers are
/// known.
pub open spec fn providers_asked<S>(
    before: Behaviour<S>,
    after: Behaviour<S>,
    source: PeerId,
    connection: ConnectionId,
    key: Key,
    request_id: RequestId,
    providers: Seq<KadPeerView>,
) -> bool {
    let closer = closest_answer(
        before.kbuckets@,
        key_of_bytes(key@),
        source,
        before.queries.config.replication_factor@ as nat,
    );
    let n = before.queued_events@.len() as int;
    let events = after.queued_events@;
    &&& after == (Behaviour { queued_events: after.queued_events, ..before })
    &&& queued_two(before.queued_events@, events)
    &&& events[n] == handled(
        InboundRequest::GetProvider {
            num_closer_peers: closer.len() as usize,
            num_provider_peers: providers.len() as usize,
        },
    )
    &&& events.last() matches ToSwarm::NotifyHandler {
        peer_id,
        handler,
        event: HandlerIn::GetProvidersRes { closer_peers, provider_peers, request_id: id },
    } && peer_id == source && handler == NotifyHandler::One(connection) && id == request_id
        && kad_peers(closer_peers@) == closer && kad_peers(provider_peers@) == providers
}

/// What the request of a peer for a record changes, when the local store returned `got` for
/// it.
pub open spec fn record_asked<S: RecordStore>(
    before: Behaviour<S>,
    after: Behaviour<S>,
    source: PeerId,
    connection: ConnectionId,
    key: Key,
    request_id: RequestId,
    got: Option<Record>,
    now: Moment,
) -> bool {
    let closer = closest_answer(
        before.kbuckets@,
        key_of_bytes(key@),
        source,
        before.queries.config.replication_factor@ as nat,
    );
    let found = found_locally(got, now);
    let n = before.queued_events@.len() as int;
    let events = after.queued_events@;
    &&& after == (Behaviour { queued_events: after.queued_events, store: after.store, ..before })
    &&& store_cleaned(before.store, after.store, key, got, now)
    &&& queued_two(before.queued_events@, events)
    &&& events[n] == handled(
        InboundRequest::GetRecord {
            num_closer_peers: closer.len() as usize,
            present_locally: found,
        },
    )
    &&& events.last() matches ToSwarm::NotifyHandler {
        peer_id,
        handler,
        event: HandlerIn::GetRecordRes { record, closer_peers, request_id: id },
    } && peer_id == source && handler == NotifyHandler::One(connection) && id == request_id
        && kad_peers(closer_peers@) == closer && record == (if found {
        got
    } else {
        None
    })
}

/// What the answer of a peer with providers changes in a query.
pub open spec fn providers_named(
    source: PeerId,
    named: Seq<KadPeerView>,
    providers: Seq<KadPeerView>,
) -> spec_fn(Query, Query) -> bool {
    |before: Query, after: Query|
        {
            &&& peers_named(source, named)(before, Query { info: before.info, ..after })
            &&& providers_noted(before.info, after.info, providers)
        }
}

/// What the answer of a peer with providers changes: those that were not reported before are.
pub open spec fn providers_arrived<S>(
    before: Behaviour<S>,
    after: Behaviour<S>,
    source: PeerId,
    closer: Seq<KadPeerView>,
    providers: Seq<KadPeerView>,
    id: QueryId,
) -> bool {
    let entries = before.queries.queries.entries@;
    let at = key_index(entries, id);
    let q = entries[at].1;
    &&& after == (Behaviour {
        queries: after.queries,
        queued_events: after.queued_events,
        ..before
    })
    &&& one_query(
        before.queries,
        after.queries,
        id,
        providers_named(source, others(closer + providers, before.local_peer_id), providers),
    )
    &&& if has_key(entries, id) && q.info is GetProviders {
        &&& queued_one(before.queued_events@, after.queued_events@)
        &&& reports_providers(
            after.queued_events@.last(),
            id,
            q.info->GetProviders_key,
            new_providers(providers, q.info->GetProviders_reported@),
            after.queries.queries.entries@[at].1.stats,
            q.info->GetProviders_step.count@ as int,
        )
    } else {
        after.queued_events == before.queued_events
    }
}

/// What the answer of a peer to the search for a record changes in a query.
pub open spec fn record_answered(
    source: PeerId,
    named: Seq<KadPeerView>,
    found: bool,
    caching: Caching,
) -> spec_fn(Query, Query) -> bool {
    |before: Query, after: Query|
        {
            &&& peers_named(source, named)(Query { info: after.info, ..before }, after)
            &&& record_noted(before.info, after.info, source, found, caching)
        }
}

/// What the answer of a peer to the search for a record changes: a record is reported.
pub open spec fn record_arrived<S>(
    before: Behaviour<S>,
    after: Behaviour<S>,
    source: PeerId,
    record: Option<Record>,
    closer: Seq<KadPeerView>,
    id: QueryId,
) -> bool {
    let entries = before.queries.queries.entries@;
    let q = entries[key_index(entries, id)].1;
    &&& after == (Behaviour {
        queries: after.queries,
        queued_events: after.queued_events,
        ..before
    })
    &&& one_query(
        before.queries,
        after.queries,
        id,
        record_answered(
            source,
            others(closer, before.local_peer_id),
            record is Some,
            before.caching,
        ),
    )
    &&& if has_key(entries, id) && q.info is GetRecord && record is Some {
        &&& queued_one(before.queued_events@, after.queued_events@)
        &&& reports(
            after.queued_events@.last(),
            id,
            QueryResult::GetRecord(
                Ok(
                    GetRecordOk::FoundRecord(
                        PeerRecord { peer: Some(source), record: record->0 },
                    ),
                ),
            ),
            q.stats,
            q.info->GetRecord_step.count@ as int,
            false,
        )
    } else {
        after.queued_events == before.queued_events
    }
}

/// What a report of a connection handler changes.
pub open spec fn event_handled<S: RecordStore>(
    before: Behaviour<S>,
    after: Behaviour<S>,
    source: PeerId,
    connection: ConnectionId,
    event: HandlerEvent,
    now: Moment,
) -> bool {
    match event {
        HandlerEvent::ProtocolConfirmed { endpoint } => connection_changed(
            before,
            after,
            source,
            dialed_address(endpoint),
            NodeStatus::Connected,
            now,
        ),
        HandlerEvent::ProtocolNotSupported { endpoint } => connection_changed(
            before,
            after,
            source,
            dialed_address(endpoint),
            NodeStatus::Disconnected,
            now,
        ),
        HandlerEvent::FindNodeReq { key, request_id } => nodes_asked(
            before,
            after,
            source,
            connection,
            key@,
            request_id,
        ),
        HandlerEvent::FindNodeRes { closer_peers, query_id } => {
            &&& after == (Behaviour { queries: after.queries, ..before })
            &&& one_query(
                before.queries,
                after.queries,
                query_id,
                peers_named(source, others(kad_peers(closer_peers@), before.local_peer_id)),
            )
        },
        HandlerEvent::GetProvidersReq { key, request_id } => exists|
            records: Seq<ProviderRecord>,
            own_addrs: Seq<Multiaddr>,
        |
            before.store.may_list_providers(key, records) && own_addresses(before, own_addrs)
                && providers_asked(
                before,
                after,
                source,
                connection,
                key,
                request_id,
                #[trigger] providers_told(before, records, source, own_addrs),
            ),
        HandlerEvent::GetProvidersRes { closer_peers, provider_peers, query_id } => {
            providers_arrived(
                before,
                after,
                source,
                kad_peers(closer_peers@),
                kad_peers(provider_peers@),
                query_id,
            )
        },
        HandlerEvent::QueryError { query_id, .. } => {
            &&& after == (Behaviour { queries: after.queries, ..before })
            &&& one_query(before.queries, after.queries, query_id, peer_failed(source))
        },
        HandlerEvent::AddProvider { key, provider } => if provider.node_id != source {
            after == before
        } else {
            provider_handled(before, after, key, provider, now)
        },
        HandlerEvent::GetRecord { key, request_id } => exists|got: Option<Record>| #[trigger]
            before.store.may_get(key, got) && record_asked(
                before,
                after,
                source,
                connection,
                key,
                request_id,
                got,
                now,
            ),
        HandlerEvent::GetRecordRes { record, closer_peers, query_id } => record_arrived(
            before,
            after,
            source,
            record,
            kad_peers(closer_peers@),
            query_id,
        ),
        HandlerEvent::PutRecord { record, request_id } => record_handled(
            before,
            after,
            source,
            connection,
            request_id,
            record,
            now,
        ),
        HandlerEvent::PutRecordRes { query_id } => {
            &&& after == (Behaviour { queries: after.queries, ..before })
            &&& one_query(before.queries, after.queries, query_id, stored_at(source))
        },
    }
}

/// What a report of a connection handler changes at the present.
pub open spec fn event_handled_now<S: RecordStore>(
    before: Behaviour<S>,
    after: Behaviour<S>,
    source: PeerId,
    connection: ConnectionId,
    event: HandlerEvent,
) -> bool {
    exists|now: Moment|
        is_present(before.clock, now) && #[trigger] event_handled(
            before,
            after,
            source,
            connection,
            event,
            now,
        )
}

/// Whether the query with the given number can report once more, if it is a search for
/// providers.
pub open spec fn can_report_providers(pool: QueryPool, id: QueryId) -> bool {
    let entries = pool.queries.entries@;
    let info = entries[key_index(entries, id)].1.info;
    has_key(entries, id) && info is GetProviders ==> info.can_go_on()
}

/// Whether the query with the given number can report once more, if it is a search for a
/// record.
pub open spec fn can_report_record(pool: QueryPool, id: QueryId) -> bool {
    let entries = pool.queries.entries@;
    let info = entries[key_index(entries, id)].1.info;
    has_key(entries, id) && info is GetRecord ==> info.can_go_on()
}

/// What a report of a connection handler has to meet: a peer that speaks the protocol is
/// connected, and a query that is to report can do so.
pub open spec fn event_expected<S>(b: Behaviour<S>, source: PeerId, event: HandlerEvent) -> bool {
    match event {
        HandlerEvent::ProtocolConfirmed { .. } => b.connected_peers@.contains(source),
        HandlerEvent::GetProvidersRes { query_id, .. } => can_report_providers(
            b.queries,
            query_id,
        ),
        HandlerEvent::GetRecordRes { record: Some(_), query_id, .. } => can_report_record(
            b.queries,
            query_id,
        ),
        _ => true,
    }
}

impl<TStore> Behaviour<TStore> {
    /// Answers a request for the peers closest to a key.
    fn answer_find_node(
        &mut self,
        source: PeerId,
        connection: ConnectionId,
        key: &Vec<u8>,
        request_id: RequestId,
    )
        requires
            old(self).wf(),
        ensures
            final(self).wf(),
            nodes_asked(*old(self), *final(self), source, connection, key@, request_id),
    {
        let ghost before = self.queued_events@;
        let target = KeyBytes::new(key);
        let closer_peers = self.find_closest_local_peers(&target, &source);
        assert(kad_peers(closer_peers@).len() == closer_peers@.len());
        self.queued_events.push_back(
            ToSwarm::GenerateEvent(
                Event::InboundRequest {
                    request: InboundRequest::FindNode { num_closer_peers: closer_peers.len() },
                },
            ),
        );
        self.queued_events.push_back(
            ToSwarm::NotifyHandler {
                peer_id: source,
                handler: NotifyHandler::One(connection),
                event: HandlerIn::FindNodeRes { closer_peers, request_id },
            },
        );
        let ghost n = before.len() as int;
        assert(self.queued_events@ =~= before.push(self.queued_events@[n]).push(
            self.queued_events@.last(),
        ));
    }

    /// Answers a request for the providers of a key, of which the given ones are known.
    pub fn answer_get_providers(
        &mut self,
        source: PeerId,
        connection: ConnectionId,
        key: &Key,
        request_id: RequestId,
        provider_peers: Vec<KadPeer>,
    )
        requires
            old(self).wf(),
        ensures
            final(self).wf(),
            providers_asked(
                *old(self),
                *final(self),
                source,
                connection,
                *key,
                request_id,
                kad_peers(provider_peers@),
            ),
    {
        let ghost before = self.queued_events@;
        let bytes = key.to_vec();
        let target = KeyBytes::new(&bytes);
        let closer_peers = self.find_closest_local_peers(&target, &source);
        assert(kad_peers(closer_peers@).len() == closer_peers@.len());
        assert(kad_peers(provider_peers@).len() == provider_peers@.len());
        self.queued_events.push_back(
            ToSwarm::GenerateEvent(
                Event::InboundRequest {
                    request: InboundRequest::GetProvider {
                        num_closer_peers: closer_peers.len(),
                        num_provider_peers: provider_peers.len(),
                    },
                },
            ),
        );
        self.queued_events.push_back(
            ToSwarm::NotifyHandler {
                peer_id: source,
                handler: NotifyHandler::One(connection),
                event: HandlerIn::GetProvidersRes { closer_peers, provider_peers, request_id },
            },
        );
        let ghost n = before.len() as int;
        assert(self.queued_events@ =~= before.push(self.queued_events@[n]).push(
            self.queued_events@.last(),
        ));
    }

    /// Takes an answer with providers of a key.
    fn take_providers(
        &mut self,
        source: PeerId,
        closer_peers: &Vec<KadPeer>,
        provider_peers: &Vec<KadPeer>,
        query_id: QueryId,
    )
        requires
            old(self).wf(),
            can_report_providers(old(self).queries, query_id),
        ensures
            final(self).wf(),
            providers_arrived(
                *old(self),
                *final(self),
                source,
                kad_peers(closer_peers@),
                kad_peers(provider_peers@),
                query_id,
            ),
    {
        let ghost before = *self;
        let ghost entries = self.queries.queries.entries@;
        self.discovered(&query_id, &source, closer_peers, provider_peers);
        let ghost mid = self.queries.queries.entries@;
        proof {
            if has_key(entries, query_id) {
                let at = key_index(entries, query_id);
                assert(entries[at].1.wf());
                assert(mid[at] == (query_id, mid[at].1));
                lemma_key_index(mid, at);
            }
        }
        if let Some(i) = self.queries.queries.position(&query_id) {
            proof {
                assert(has_key(entries, query_id)) by {
                    if !has_key(entries, query_id) {
                        assert(mid == entries);
                    }
                }
                assert(mid[i as int].1.wf());
            }
            let stats = self.queries.queries.entries[i].1.stats;
            let report = self.queries.queries.entries[i].1.note_providers(provider_peers);
            proof {
                let q2 = self.queries.queries.entries@[i as int].1;
                lemma_pool_put(entries, query_id, q2);
                assert(self.queries.queries.entries@ =~= entries_insert(entries, query_id, q2));
            }
            if let Some(report) = report {
                self.queued_events.push_back(
                    ToSwarm::GenerateEvent(
                        Event::OutboundQueryProgressed {
                            id: query_id,
                            result: QueryResult::GetProviders(
                                Ok(
                                    GetProvidersOk::FoundProviders {
                                        key: report.key,
                                        providers: report.providers,
                                    },
                                ),
                            ),
                            step: report.step,
                            stats,
                        },
                    ),
                );
            }
        }
    }

    /// Takes an answer to the search for a record.
    fn take_record(
        &mut self,
        source: PeerId,
        record: Option<Record>,
        closer_peers: &Vec<KadPeer>,
        query_id: QueryId,
    )
        requires
            old(self).wf(),
            record is Some ==> can_report_record(old(self).queries, query_id),
        ensures
            final(self).wf(),
            record_arrived(
                *old(self),
                *final(self),
                source,
                record,
                kad_peers(closer_peers@),
                query_id,
            ),
    {
        let ghost before = *self;
        let ghost entries = self.queries.queries.entries@;
        let none: Vec<KadPeer> = Vec::new();
        assert(kad_peers(closer_peers@) + kad_peers(none@) =~= kad_peers(closer_peers@));
        if let Some(i) = self.queries.queries.position(&query_id) {
            assert(entries[i as int].1.wf());
            let stats = self.queries.queries.entries[i].1.stats;
            let step = self.queries.queries.entries[i].1.note_record(
                &source,
                record.is_some(),
                self.caching,
            );
            proof {
                let q1 = self.queries.queries.entries@[i as int].1;
                lemma_pool_put(entries, query_id, q1);
                assert(self.queries.queries.entries@ =~= entries_insert(entries, query_id, q1));
                lemma_key_index(self.queries.queries.entries@, i as int);
            }
            if let Some(step) = step {
                if let Some(record) = record {
                    self.queued_events.push_back(
                        ToSwarm::GenerateEvent(
                            Event::OutboundQueryProgressed {
                                id: query_id,
                                result: QueryResult::GetRecord(
                                    Ok(
                                        GetRecordOk::FoundRecord(
                                            PeerRecord { peer: Some(source), record },
                                        ),
                                    ),
                                ),
                                step,
                                stats,
                            },
                        ),
                    );
                }
            }
            let ghost mid = self.queries.queries.entries@;
            self.discovered(&query_id, &source, closer_peers, &none);
            proof {
                let q2 = self.queries.queries.entries@[i as int].1;
                assert(self.queries.queries.entries@ =~= entries_insert(entries, query_id, q2));
            }
        } else {
            self.discovered(&query_id, &source, closer_peers, &none);
        }
    }

    /// Changes the query with the given number, if there is one, as a failed request does.
    fn take_failure(&mut self, source: PeerId, query_id: QueryId)
        requires
            old(self).wf(),
        ensures
            final(self).wf(),
            *final(self) == (Behaviour { queries: final(self).queries, ..*old(self) }),
            one_query(old(self).queries, final(self).queries, query_id, peer_failed(source)),
    {
        let ghost entries = self.queries.queries.entries@;
        if let Some(i) = self.queries.queries.position(&query_id) {
            assert(entries[i as int].1.wf());
            self.queries.queries.entries[i].1.on_failure(&source);
            proof {
                let q2 = self.queries.queries.entries@[i as int].1;
                lemma_pool_put(entries, query_id, q2);
                assert(self.queries.queries.entries@ =~= entries_insert(entries, query_id, q2));
            }
        }
    }

    /// Changes the query with the given number, if there is one, as a stored record does.
    fn take_stored(&mut self, source: PeerId, query_id: QueryId)
        requires
            old(self).wf(),
        ensures
            final(self).wf(),
            *final(self) == (Behaviour { queries: final(self).queries, ..*old(self) }),
            one_query(old(self).queries, final(self).queries, query_id, stored_at(source)),
    {
        let ghost entries = self.queries.queries.entries@;
        if let Some(i) = self.queries.queries.position(&query_id) {
            assert(entries[i as int].1.wf());
            self.queries.queries.entries[i].1.note_stored(&source);
            proof {
                let q2 = self.queries.queries.entries@[i as int].1;
                lemma_pool_put(entries, query_id, q2);
                assert(self.queries.queries.entries@ =~= entries_insert(entries, query_id, q2));
            }
        }
    }

    /// Replies to a request to store a record, by what the store made of it.
    pub fn reply_put(
        &mut self,
        source: PeerId,
        connection: ConnectionId,
        request_id: RequestId,
        record: Record,
        result: Result<(), StoreError>,
    )
        requires
            old(self).wf(),
        ensures
            final(self).wf(),
            *final(self) == (Behaviour { queued_events: final(self).queued_events, ..*old(self) }),
            final(self).queued_events@ == old(self).queued_events@ + put_replies(
                source,
                connection,
                request_id,
                record,
                error_of(result),
            ),
    {
        let ghost before = self.queued_events@;
        match result {
            Ok(_) => {
                self.queued_events.push_back(
                    ToSwarm::GenerateEvent(
                        Event::InboundRequest {
                            request: InboundRequest::PutRecord {
                                source,
                                connection,
                                record: None,
                            },
                        },
                    ),
                );
                self.queued_events.push_back(
                    ToSwarm::NotifyHandler {
                        peer_id: source,
                        handler: NotifyHandler::One(connection),
                        event: HandlerIn::PutRecordRes {
                            key: record.key,
                            value: record.value,
                            request_id,
                        },
                    },
                );
            },
            Err(_) => {
                self.queued_events.push_back(
                    ToSwarm::NotifyHandler {
                        peer_id: source,
                        handler: NotifyHandler::One(connection),
                        event: HandlerIn::Reset(request_id),
                    },
                );
            },
        }
        assert(self.queued_events@ =~= before + put_replies(
            source,
            connection,
            request_id,
            record,
            error_of(result),
        ));
    }
}

impl<TStore: RecordStore> Behaviour<TStore> {
    /// Handles the request of a peer to store a record.
    pub fn record_received(
        &mut self,
        source: PeerId,
        connection: ConnectionId,
        request_id: RequestId,
        record: Record,
        now: Moment,
    )
        requires
            old(self).wf(),
            now.nanos <= MAX_ELAPSED,
        ensures
            final(self).wf(),
            record_handled(
                *old(self),
                *final(self),
                source,
                connection,
                request_id,
                record,
                now,
            ),
    {
        let ghost before = *self;
        let ghost received = record;
        if is_peer(&record.publisher, &self.local_peer_id) {
            self.queued_events.push_back(
                ToSwarm::NotifyHandler {
                    peer_id: source,
                    handler: NotifyHandler::One(connection),
                    event: HandlerIn::PutRecordRes {
                        key: record.key,
                        value: record.value,
                        request_id,
                    },
                },
            );
            return;
        }
        let bytes = record.key.to_vec();
        let target = KeyBytes::new(&bytes);
        let num_between: usize = self.kbuckets.count_nodes_between(&target);
        let k: usize = self.queries.config.replication_factor.get();
        let excess: usize = if num_between > k {
            num_between - k
        } else {
            0
        };
        let num_beyond_k: u32 = excess as u32;
        let expiration = match self.record_ttl {
            Some(ttl) => Some(now.plus(exp_decrease(ttl, num_beyond_k))),
            None => None,
        };
        let mut record = record;
        record.expires = option_min(record.expires, expiration);
        assert(record == as_stored(before, received, now));
        if let Some(job) = &mut self.put_record_job {
            job.skip(record.key.clone());
        }
        if !record.is_expired(now) {
            match self.record_filtering {
                StoreInserts::Unfiltered => {
                    let result = self.store.put(record.clone());
                    proof {
                        assert(before.store.may_put(
                            as_stored(before, received, now),
                            self.store,
                            error_of(result),
                        ));
                    }
                    self.reply_put(source, connection, request_id, record, result);
                    return;
                },
                StoreInserts::FilterBoth => {
                    self.queued_events.push_back(
                        ToSwarm::GenerateEvent(
                            Event::InboundRequest {
                                request: InboundRequest::PutRecord {
                                    source,
                                    connection,
                                    record: Some(record.clone()),
                                },
                            },
                        ),
                    );
                },
            }
        }
        self.queued_events.push_back(
            ToSwarm::NotifyHandler {
                peer_id: source,
                handler: NotifyHandler::One(connection),
                event: HandlerIn::PutRecordRes {
                    key: record.key,
                    value: record.value,
                    request_id,
                },
            },
        );
    }

    /// Handles the announcement of a provider.
    pub fn provider_received(&mut self, key: Key, provider: KadPeer, now: Moment)
        requires
            old(self).wf(),
            now.nanos <= MAX_ELAPSED,
        ensures
            final(self).wf(),
            provider_handled(*old(self), *final(self), key, provider, now),
    {
        if provider.node_id.same(&self.local_peer_id) {
            return;
        }
        let ghost before = *self;
        let record = ProviderRecord {
            key,
            provider: provider.node_id,
            expires: match self.provider_record_ttl {
                Some(ttl) => Some(now.plus(ttl)),
                None => None,
            },
            addresses: provider.multiaddrs,
        };
        assert(record == announced_record(key, provider, before.provider_record_ttl, now));
        match self.record_filtering {
            StoreInserts::Unfiltered => {
                let ghost announced = record;
                let result = self.store.add_provider(record);
                proof {
                    assert(before.store.may_add_provider(
                        announced,
                        self.store,
                        error_of(result),
                    ));
                }
                if result.is_err() {
                    return;
                }
                self.queued_events.push_back(
                    ToSwarm::GenerateEvent(
                        Event::InboundRequest {
                            request: InboundRequest::AddProvider { record: None },
                        },
                    ),
                );
            },
            StoreInserts::FilterBoth => {
                self.queued_events.push_back(
                    ToSwarm::GenerateEvent(
                        Event::InboundRequest {
                            request: InboundRequest::AddProvider { record: Some(record) },
                        },
                    ),
                );
            },
        }
    }

    /// Answers a request for a record, when the local store returned `got` for it.
    pub fn answer_get_record(
        &mut self,
        source: PeerId,
        connection: ConnectionId,
        key: &Key,
        request_id: RequestId,
        got: Option<Record>,
        now: Moment,
    )
        requires
            old(self).wf(),
        ensures
            final(self).wf(),
            record_asked(
                *old(self),
                *final(self),
                source,
                connection,
                *key,
                request_id,
                got,
                now,
            ),
    {
        let ghost before = self.queued_events@;
        let record = self.look_up(key, got, now);
        let bytes = key.to_vec();
        let target = KeyBytes::new(&bytes);
        let closer_peers = self.find_closest_local_peers(&target, &source);
        assert(kad_peers(closer_peers@).len() == closer_peers@.len());
        self.queued_events.push_back(
            ToSwarm::GenerateEvent(
                Event::InboundRequest {
                    request: InboundRequest::GetRecord {
                        num_closer_peers: closer_peers.len(),
                        present_locally: record.is_some(),
                    },
                },
            ),
        );
        self.queued_events.push_back(
            ToSwarm::NotifyHandler {
                peer_id: source,
                handler: NotifyHandler::One(connection),
                event: HandlerIn::GetRecordRes { record, closer_peers, request_id },
            },
        );
        let ghost n = before.len() as int;
        assert(self.queued_events@ =~= before.push(self.queued_events@[n]).push(
            self.queued_events@.last(),
        ));
    }

    /// Handles what a connection handler reports.
    pub fn on_connection_handler_event(
        &mut self,
        source: PeerId,
        connection: ConnectionId,
        event: HandlerEvent,
    )
        requires
            old(self).wf(),
            event_expected(*old(self), source, event),
        ensures
            final(self).wf(),
            event_handled_now(*old(self), *final(self), source, connection, event),
    {
        let now = self.now();
        self.on_connection_handler_event_at(source, connection, event, now);
    }

    /// As [`Behaviour::on_connection_handler_event`], at a given point in time.
    pub fn on_connection_handler_event_at(
        &mut self,
        source: PeerId,
        connection: ConnectionId,
        event: HandlerEvent,
        now: Moment,
    )
        requires
            old(self).wf(),
            now.nanos <= MAX_ELAPSED,
            event_expected(*old(self), source, event),
        ensures
            final(self).wf(),
            event_handled(*old(self), *final(self), source, connection, event, now),
    {
        match event {
            HandlerEvent::ProtocolConfirmed { endpoint } => {
                let address = match endpoint {
                    ConnectedPoint::Dialer { address, .. } => Some(address),
                    ConnectedPoint::Listener { .. } => None,
                };
                self.connection_updated(source, address, NodeStatus::Connected, now);
            },
            HandlerEvent::ProtocolNotSupported { endpoint } => {
                let address = match endpoint {
                    ConnectedPoint::Dialer { address, .. } => Some(address),
                    ConnectedPoint::Listener { .. } => None,
                };
                self.connection_updated(source, address, NodeStatus::Disconnected, now);
            },
            HandlerEvent::FindNodeReq { key, request_id } => {
                self.answer_find_node(source, connection, &key, request_id);
            },
            HandlerEvent::FindNodeRes { closer_peers, query_id } => {
                let none: Vec<KadPeer> = Vec::new();
                assert(kad_peers(closer_peers@) + kad_peers(none@) =~= kad_peers(closer_peers@));
                self.discovered(&query_id, &source, &closer_peers, &none);
            },
            HandlerEvent::GetProvidersReq { key, request_id } => {
                let provider_peers = self.provider_peers(&key, &source);
                self.answer_get_providers(source, connection, &key, request_id, provider_peers);
            },
            HandlerEvent::GetProvidersRes { closer_peers, provider_peers, query_id } => {
                self.take_providers(source, &closer_peers, &provider_peers, query_id);
            },
            HandlerEvent::QueryError { query_id, .. } => {
                self.take_failure(source, query_id);
            },
            HandlerEvent::AddProvider { key, provider } => {
                if !provider.node_id.same(&source) {
                    return;
                }
                self.provider_received(key, provider, now);
            },
            HandlerEvent::GetRecord { key, request_id } => {
                let got = self.store.get(&key);
                self.answer_get_record(source, connection, &key, request_id, got, now);
            },
            HandlerEvent::GetRecordRes { record, closer_peers, query_id } => {
                self.take_record(source, record, &closer_peers, query_id);
            },
            HandlerEvent::PutRecord { record, request_id } => {
                self.record_received(source, connection, request_id, record, now);
            },
            HandlerEvent::PutRecordRes { query_id } => {
                self.take_stored(source, query_id);
            },
        }
    }
}

} // verus!
