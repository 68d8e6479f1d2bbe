//! Laws on how the candidates of queries are contacted, and on the connections to them.

use libp2p_core::Multiaddr;
use libp2p_identity::PeerId;
use libp2p_swarm::ConnectionId;
use vstd::prelude::*;

use crate::assoc::entries_insert;
use crate::assoc::entries_map;
use crate::assoc::has_key;
use crate::assoc::key_index;
use crate::assoc::lemma_entries_insert;
use crate::assoc::lemma_entries_remove;
use crate::assoc::lemma_insert_get;
use crate::assoc::lemma_with_item;
use crate::kad::behaviour::Behaviour;
use crate::kad::behaviour::Request;
use crate::kad::connections::addresses_failure;
use crate::kad::connections::connection_accepted;
use crate::kad::connections::connection_dialed;
use crate::kad::connections::dialing_addresses;
use crate::kad::connections::handler_made;
use crate::kad::connections::learned_addresses;
use crate::kad::connections::news_handled;
use crate::kad::connections::unreachable_addresses;
use crate::kad::connections::NewHandler;
use crate::kad::events::AddProviderPhase;
use crate::kad::events::PutRecordPhase;
use crate::kad::events::QueryInfo;
use crate::kad::events::QueryStats;
use crate::kad::finish::is_request;
use crate::kad::inbound::event_handled;
use crate::kad::kbucket::NodeStatus;
use crate::kad::kbucket::Place;
use crate::kad::kbucket::TableView;
use crate::kad::key::key_of_peer;
use crate::kad::lookups::query_cancelled;
use crate::kad::poll::decision_handled;
use crate::kad::poll::polled;
use crate::kad::poll::PollInput;
use crate::kad::poll::PollOutput;
use crate::kad::pool::address_dropped;
use crate::kad::pool::each_query;
use crate::kad::pool::first_rpc;
use crate::kad::pool::peer_failed;
use crate::kad::pool::rpc_taken;
use crate::kad::pool::taken_rpcs;
use crate::kad::protocol::ConnectionType;
use crate::kad::protocol::HandlerEvent;
use crate::kad::protocol::HandlerIn;
use crate::kad::protocol::QueryId;
use crate::kad::query::addr_views;
use crate::kad::query::addrs_of;
use crate::kad::query::failed;
use crate::kad::query::lemma_addr_views_key;
use crate::kad::query::pool_polled;
use crate::kad::query::LookupStep;
use crate::kad::query::PeerState;
use crate::kad::query::PoolState;
use crate::kad::query::Query;
use crate::kad::query::QueryPeers;
use crate::kad::query::QueryPool;
use crate::kad::record::RecordStore;
use crate::kad::replies::stored_at;
use crate::kad::routing::address_failure;
use crate::kad::search_laws::is_candidate;
use crate::kad::search_laws::is_in;
use crate::kad::search_laws::lemma_learned_state;
use crate::kad::search_laws::lemma_others_stay;
use crate::kad::search_laws::lemma_state;
use crate::net::dial_view;
use crate::net::peer_id_bytes;
use crate::swarm::ConnectedPoint;
use crate::swarm::Endpoint;
use crate::swarm::FromSwarm;
use crate::swarm::NotifyHandler;
use crate::swarm::PeerCondition;
use crate::swarm::PortUse;
use crate::swarm::ToSwarm;
use crate::time::Moment;

verus! {

/// Whether a handler is told to ask what a query is about. A search asks for the peers closest to
/// its key, for the providers of it or for the record; an announcement sends the provider with all
/// its addresses, and the storing of a record the record.
pub open spec fn asks(info: QueryInfo, id: QueryId, event: HandlerIn) -> bool {
    match event {
        HandlerIn::FindNodeReq { key, query_id } => query_id == id && match info {
            QueryInfo::Bootstrap { peer, .. } => key@ == peer_id_bytes(peer),
            QueryInfo::GetClosestPeers { key: k, .. } => key@ == k@,
            QueryInfo::AddProvider { key: k, phase, .. } => key@ == k@ && phase is GetClosestPeers,
            QueryInfo::PutRecord { record, phase, .. } => key@ == record.key@
                && phase is GetClosestPeers,
            _ => false,
        },
        HandlerIn::GetProvidersReq { key, query_id } => query_id == id && (
        info matches QueryInfo::GetProviders { key: k, .. } && key == k),
        HandlerIn::GetRecord { key, query_id } => query_id == id && (
        info matches QueryInfo::GetRecord { key: k, .. } && key == k),
        HandlerIn::AddProvider { key, provider, query_id } => query_id == id && (
        info matches QueryInfo::AddProvider { key: k, phase, .. } && key == k && (
        phase matches AddProviderPhase::AddProvider { provider_id, external_addresses, .. }
            && provider.node_id == provider_id && provider.multiaddrs@ == external_addresses@
            && provider.connection_ty == ConnectionType::Connected)),
        HandlerIn::PutRecord { record, query_id } => query_id == id && (
        info matches QueryInfo::PutRecord { record: r, phase, .. } && record == r
            && phase is PutRecord),
        _ => false,
    }
}

/// A request is what its query is about.
pub proof fn law_request_asks_what_query_is_about(info: QueryInfo, id: QueryId, event: HandlerIn)
    requires
        is_request(info, id, event),
    ensures
        asks(info, id, event),
{
}

/// Whether a request is to dial a peer wherever it is known to be, unless it is connected or
/// being dialed.
pub open spec fn calls_up(request: Request, peer: PeerId) -> bool {
    request matches ToSwarm::Dial { opts } && {
        let dial = dial_view(opts);
        &&& dial.peer == peer
        &&& dial.condition == PeerCondition::DisconnectedAndNotDialing
        &&& dial.addresses.len() == 0
        &&& dial.extend_addresses
        &&& !dial.as_listener
        &&& !dial.new_port
    }
}

/// The contact with a candidate that was not contacted, for a query that is not to end. If the
/// candidate is connected, its handler is told to ask what the query is about; if not, it is
/// dialed and the request waits for the connection. The candidate is waited for from then on, but
/// for an announcement, which counts as made. The request is counted.
pub proof fn law_contact_reaches_candidate<S>(
    before: Behaviour<S>,
    after: Behaviour<S>,
    id: QueryId,
    peer: PeerId,
    now: Moment,
    r: PollOutput,
    p: PeerId,
    other: QueryId,
)
    requires
        before.wf(),
        polled(before, after, PollInput::Lookup(LookupStep::Contact { id, peer }), now, r),
        before.queries@.contains_key(id),
        !before.queries@[id].peers.finished,
        is_in(before.queries@[id].peers, peer, PeerState::NotContacted),
    ensures
        r is AskLookups,
        after.queries@.contains_key(id),
        ({
            let q = before.queries@[id];
            let q2 = after.queries@[id];
            let announces = q.info matches QueryInfo::AddProvider { phase, .. }
                && phase is AddProvider;
            let waiting = q.pending_rpcs@;
            &&& q2.info == q.info
            &&& q2.peers.kind == q.peers.kind
            &&& is_in(
                q2.peers,
                peer,
                if announces {
                    PeerState::Succeeded
                } else {
                    PeerState::Waiting
                },
            )
            &&& p != peer ==> {
                &&& is_candidate(q2.peers, p) <==> is_candidate(q.peers, p)
                &&& is_candidate(q.peers, p) ==> q2.peers.candidates@[p] == q.peers.candidates@[p]
            }
            &&& q2.stats.requests == (if q.stats.requests == u32::MAX {
                u32::MAX as int
            } else {
                q.stats.requests + 1
            })
            &&& q2.stats.failure == q.stats.failure
            &&& !announces ==> q2.stats.success == q.stats.success
            &&& q.stats.start is None ==> q2.stats.start == Some(now)
            &&& q.stats.start is Some ==> q2.stats.start == q.stats.start
            &&& if before.connected_peers@.contains(peer) {
                &&& q2.pending_rpcs@ == waiting
                &&& after.queued_events@.len() == before.queued_events@.len() + 1
                &&& before.queued_events@.is_prefix_of(after.queued_events@)
                &&& after.queued_events@.last() matches ToSwarm::NotifyHandler {
                    peer_id,
                    handler,
                    event,
                } && peer_id == peer && handler == NotifyHandler::Any && asks(q.info, id, event)
            } else if peer != before.local_peer_id {
                &&& q2.pending_rpcs@.len() == waiting.len() + 1
                &&& waiting.is_prefix_of(q2.pending_rpcs@)
                &&& q2.pending_rpcs@.last().0 == peer
                &&& asks(q.info, id, q2.pending_rpcs@.last().1)
                &&& after.queued_events@.len() == before.queued_events@.len() + 1
                &&& before.queued_events@.is_prefix_of(after.queued_events@)
                &&& calls_up(after.queued_events@.last(), peer)
            } else {
                &&& q2.pending_rpcs@ == waiting
                &&& after.queued_events == before.queued_events
            }
        }),
        other != id ==> {
            &&& after.queries@.contains_key(other) <==> before.queries@.contains_key(other)
            &&& after.queries@.contains_key(other) ==> after.queries@[other]
                == before.queries@[other]
        },
        after.kbuckets == before.kbuckets,
        after.store == before.store,
{
    let (mid, state) = choose|mid: Behaviour<S>, state: PoolState|
        {
            &&& mid == (Behaviour { queries: mid.queries, ..before })
            &&& pool_polled(
                before.queries,
                mid.queries,
                LookupStep::Contact { id, peer },
                now,
                state,
            )
            &&& #[trigger] decision_handled(mid, after, state, now, r)
        };
    let entries = before.queries.queries.entries@;
    assert(entries_map(entries).contains_key(id) == has_key(entries, id));
    let at = key_index(entries, id);
    let q = entries[at].1;
    assert(q.wf());
    lemma_state(q.peers, peer);
    lemma_state(q.peers, p);
    let left = mid.queries.queries.entries@;
    let q1 = left[at].1;
    lemma_others_stay(before.queries, mid.queries, id, q1, other);
    lemma_others_stay(before.queries, mid.queries, id, q1, id);
    lemma_entries_insert(entries, id, q1);
    lemma_insert_get(entries, id, q1, id);
    lemma_insert_get(entries, id, q1, other);
    let now_running = after.queries.queries.entries@;
    let q2 = now_running[key_index(left, id)].1;
    lemma_entries_insert(left, id, q2);
    lemma_insert_get(left, id, q2, id);
    assert(entries_map(now_running) == entries_map(left).insert(id, q2));
    assert(entries_map(left) == entries_map(entries).insert(id, q1));
    let cand = q.peers.candidates.entries@;
    let marked = entries_insert(cand, peer, PeerState::Waiting);
    lemma_entries_insert(cand, peer, PeerState::Waiting);
    lemma_insert_get(cand, peer, PeerState::Waiting, peer);
    lemma_insert_get(cand, peer, PeerState::Waiting, p);
    lemma_state(q1.peers, peer);
    lemma_state(q1.peers, p);
    lemma_state(q2.peers, peer);
    lemma_state(q2.peers, p);
    let done = entries_insert(marked, peer, PeerState::Succeeded);
    lemma_insert_get(marked, peer, PeerState::Succeeded, peer);
    lemma_insert_get(marked, peer, PeerState::Succeeded, p);
    lemma_entries_insert(marked, peer, PeerState::Succeeded);
    lemma_learned_state(done, Seq::empty(), peer);
    lemma_learned_state(done, Seq::empty(), p);
    let n = before.queued_events@.len() as int;
    let events = after.queued_events@;
    if events.len() == n + 1 {
        assert(events.subrange(0, n) =~= before.queued_events@);
    }
    let waiting = q.pending_rpcs@;
    if q2.pending_rpcs@.len() == waiting.len() + 1 {
        assert(q2.pending_rpcs@.subrange(0, waiting.len() as int) =~= waiting);
    }
}

/// A connection takes over every request that waits for its peer: what its handler is told at
/// once are those requests, one for each query that has one, and no other.
pub proof fn law_connection_takes_over_requests<S>(
    before: Behaviour<S>,
    after: Behaviour<S>,
    connection: ConnectionId,
    peer: PeerId,
    endpoint: ConnectedPoint,
    handler: NewHandler,
    k: int,
    i: int,
)
    requires
        before.wf(),
        handler_made(before, after, connection, peer, endpoint, handler),
        0 <= k < before.queries.queries.entries@.len(),
        0 <= i < before.queries.queries.entries@[k].1.pending_rpcs@.len(),
    ensures
        ({
            let (waits_for, event) = before.queries.queries.entries@[k].1.pending_rpcs@[i];
            &&& waits_for == peer ==> handler.preloaded@.contains(event)
            &&& waits_for != peer
                ==> after.queries.queries.entries@[k].1.pending_rpcs@.contains((waits_for, event))
        }),
        handler.remote_peer_id == peer,
        handler.endpoint == endpoint,
        handler.mode == before.mode,
        after.connections@.contains_key(connection),
        after.connections@[connection] == peer,
        after.connected_peers == before.connected_peers,
        after.queued_events == before.queued_events,
        after.kbuckets == before.kbuckets,
{
    let entries = before.queries.queries.entries@;
    let q = entries[k].1;
    let rpcs = q.pending_rpcs@;
    assert(q.wf());
    lemma_entries_insert(before.connections.entries@, connection, peer);
    assert(entries_map(after.connections.entries@) == entries_map(
        before.connections.entries@,
    ).insert(connection, peer));
    lemma_taken(entries, peer, k, i);
    assert(after.queries.queries.entries@[k].0 == entries[k].0);
    let left = after.queries.queries.entries@[k].1.pending_rpcs@;
    assert(rpc_taken(peer)(q, after.queries.queries.entries@[k].1));
    if rpcs[i].0 != peer {
        if exists|j: int| first_rpc(rpcs, peer, j) {
            let j = choose|j: int| first_rpc(rpcs, peer, j);
            if i < j {
                assert(left[i] == rpcs[i]);
            } else {
                assert(left[i - 1] == rpcs[i]);
            }
        } else {
            assert(left[i] == rpcs[i]);
        }
    }
}

/// A request that waits for a peer is among those that are taken over.
proof fn lemma_taken(entries: Seq<(QueryId, Query)>, peer: PeerId, k: int, i: int)
    requires
        0 <= k < entries.len(),
        0 <= i < entries[k].1.pending_rpcs@.len(),
        entries[k].1.wf(),
    ensures
        entries[k].1.pending_rpcs@[i].0 == peer ==> taken_rpcs(entries, peer).contains(
            entries[k].1.pending_rpcs@[i].1,
        ),
    decreases entries.len(),
{
    let front = entries.drop_last();
    let before = taken_rpcs(front, peer);
    let all = taken_rpcs(entries, peer);
    let rpcs = entries[k].1.pending_rpcs@;
    if rpcs[i].0 == peer {
        if k < front.len() {
            assert(front[k] == entries[k]);
            lemma_taken(front, peer, k, i);
            let j = before.index_of(rpcs[i].1);
            assert(all[j] == rpcs[i].1);
        } else {
            assert(first_rpc(rpcs, peer, i)) by {
                assert forall|j: int| 0 <= j < i implies (#[trigger] rpcs[j]).0 != peer by {
                    assert(rpcs[j].0 != rpcs[i].0);
                }
            }
            let j = choose|j: int| first_rpc(rpcs, peer, j);
            if j < i {
                assert(rpcs[j].0 != rpcs[i].0);
            } else if i < j {
                assert(rpcs[i].0 != peer);
            }
            assert(all[before.len() as int] == rpcs[i].1);
        }
    }
}

/// Whether a query has noted that a peer has failed: a candidate that was waited for has failed,
/// and the failure is counted; any other one stays as it is.
pub open spec fn notes_failure(q: Query, q2: Query, peer: PeerId, p: PeerId) -> bool {
    &&& q2.id == q.id
    &&& q2.info == q.info
    &&& q2.pending_rpcs == q.pending_rpcs
    &&& is_candidate(q2.peers, p) <==> is_candidate(q.peers, p)
    &&& is_in(q.peers, peer, PeerState::Waiting) ==> {
        &&& is_in(q2.peers, peer, PeerState::Failed)
        &&& p != peer && is_candidate(q.peers, p) ==> is_in(q2.peers, p, q.peers.candidates@[p])
        &&& q2.stats.failure == (if q.stats.failure == u32::MAX {
            u32::MAX as int
        } else {
            q.stats.failure + 1
        })
        &&& q2.stats == (QueryStats { failure: q2.stats.failure, ..q.stats })
    }
    &&& !is_in(q.peers, peer, PeerState::Waiting) ==> q2 == q
}

/// A candidate that fails is noted to have.
proof fn lemma_failed(q: Query, q2: Query, peer: PeerId, p: PeerId)
    requires
        q.wf(),
        failed(q, q2, peer),
    ensures
        notes_failure(q, q2, peer, p),
{
    let cand = q.peers.candidates.entries@;
    lemma_state(q.peers, peer);
    lemma_state(q.peers, p);
    lemma_state(q2.peers, peer);
    lemma_state(q2.peers, p);
    lemma_insert_get(cand, peer, PeerState::Failed, peer);
    lemma_insert_get(cand, peer, PeerState::Failed, p);
}

/// A request that fails makes its candidate fail in the query that it belongs to, and changes
/// nothing else.
pub proof fn law_failed_request_fails_candidate<S: RecordStore>(
    before: Behaviour<S>,
    after: Behaviour<S>,
    source: PeerId,
    connection: ConnectionId,
    event: HandlerEvent,
    now: Moment,
    id: QueryId,
    p: PeerId,
    other: QueryId,
)
    requires
        before.wf(),
        event_handled(before, after, source, connection, event, now),
        event matches HandlerEvent::QueryError { query_id, .. } && query_id == id,
    ensures
        after.queries@.contains_key(other) <==> before.queries@.contains_key(other),
        other != id && before.queries@.contains_key(other) ==> after.queries@[other]
            == before.queries@[other],
        before.queries@.contains_key(id) ==> notes_failure(
            before.queries@[id],
            after.queries@[id],
            source,
            p,
        ),
        after == (Behaviour { queries: after.queries, ..before }),
{
    let entries = before.queries.queries.entries@;
    assert(entries_map(entries).contains_key(id) == has_key(entries, id));
    if has_key(entries, id) {
        let at = key_index(entries, id);
        let q = entries[at].1;
        let q2 = after.queries.queries.entries@[at].1;
        assert(q.wf());
        lemma_others_stay(before.queries, after.queries, id, q2, other);
        lemma_others_stay(before.queries, after.queries, id, q2, id);
        lemma_failed(q, q2, source, p);
    }
}

/// When the last connection of a peer is closed, the peer fails in every query that waits for it,
/// is no longer connected, and is disconnected in the routing table. While others are left, only
/// the connection is forgotten.
pub proof fn law_lost_peer_fails_everywhere<S>(
    before: Behaviour<S>,
    after: Behaviour<S>,
    event: FromSwarm,
    peer: PeerId,
    connection: ConnectionId,
    left: usize,
    k: int,
    p: PeerId,
)
    requires
        before.wf(),
        news_handled(before, after, event),
        event matches FromSwarm::ConnectionClosed {
            peer_id,
            connection_id,
            remaining_established,
            ..
        } && peer_id == peer && connection_id == connection && remaining_established == left,
        0 <= k < before.queries.queries.entries@.len(),
    ensures
        !after.connections@.contains_key(connection),
        after.queued_events == before.queued_events,
        after.store == before.store,
        left == 0 ==> {
            &&& after.connected_peers@.contains(p) <==> before.connected_peers@.contains(p) && p
                != peer
            &&& after.queries.queries.entries@[k].0 == before.queries.queries.entries@[k].0
            &&& notes_failure(
                before.queries.queries.entries@[k].1,
                after.queries.queries.entries@[k].1,
                peer,
                p,
            )
            &&& has_status(after.kbuckets@, peer, NodeStatus::Disconnected) || !knows(
                before.kbuckets@,
                peer,
            )
        },
        left > 0 ==> {
            &&& after.connected_peers == before.connected_peers
            &&& after.queries == before.queries
            &&& after.kbuckets == before.kbuckets
        },
{
    let entries = before.connections.entries@;
    lemma_entries_remove(entries, connection);
    assert(entries_map(after.connections.entries@) == entries_map(entries).remove(connection));
    if left == 0 {
        let q = before.queries.queries.entries@[k].1;
        let q2 = after.queries.queries.entries@[k].1;
        assert(q.wf());
        assert(peer_failed(peer)(q, q2));
        lemma_failed(q, q2, peer, p);
        let t = before.kbuckets@;
        t.lemma_place(key_of_peer(peer));
        let t2 = after.kbuckets@;
        match t.place_of(peer) {
            Place::Present(i) => {
                if t.nodes[i].status == NodeStatus::Disconnected {
                    assert(t2.nodes[i].key() == key_of_peer(peer));
                } else {
                    let j = t.nodes.len() - 1;
                    assert(t2.nodes[j].key() == key_of_peer(peer));
                }
            },
            Place::Pending(i) => {
                assert(t2.pending[i].node.key() == key_of_peer(peer));
            },
            _ => {
                assert forall|i: int| 0 <= i < t.nodes.len() implies key_of_peer(
                    (#[trigger] t.nodes[i]).peer,
                ) != key_of_peer(peer) by {
                    assert(!t.node_is(i, key_of_peer(peer)));
                }
                assert forall|i: int| 0 <= i < t.pending.len() implies key_of_peer(
                    (#[trigger] t.pending[i]).node.peer,
                ) != key_of_peer(peer) by {
                    assert(!t.pending_is(i, key_of_peer(peer)));
                }
            },
        }
    }
}

/// Whether the routing table holds the key of a peer, or it waits for a place there.
pub open spec fn knows(t: TableView, peer: PeerId) -> bool {
    ||| exists|i: int|
        0 <= i < t.nodes.len() && key_of_peer((#[trigger] t.nodes[i]).peer) == key_of_peer(peer)
    ||| exists|i: int|
        0 <= i < t.pending.len() && key_of_peer((#[trigger] t.pending[i]).node.peer)
            == key_of_peer(peer)
}

/// Whether the routing table holds the key of a peer, or it waits for a place there, with the
/// given status.
pub open spec fn has_status(t: TableView, peer: PeerId, status: NodeStatus) -> bool {
    ||| exists|i: int|
        0 <= i < t.nodes.len() && key_of_peer((#[trigger] t.nodes[i]).peer) == key_of_peer(peer)
            && t.nodes[i].status == status
    ||| exists|i: int|
        0 <= i < t.pending.len() && key_of_peer((#[trigger] t.pending[i]).node.peer)
            == key_of_peer(peer) && t.pending[i].node.status == status
}

/// A peer that could not be dialed fails in every query that waits for it, unless the dial was
/// not made because the peer is connected or being dialed.
pub proof fn law_failed_dial_fails_candidate<S>(
    before: Behaviour<S>,
    after: Behaviour<S>,
    event: FromSwarm,
    peer: PeerId,
    k: int,
)
    requires
        before.wf(),
        news_handled(before, after, event),
        event matches FromSwarm::DialFailure { peer_id, .. } && peer_id == Some(peer),
        0 <= k < before.queries.queries.entries@.len(),
    ensures
        after.queries.queries.entries@.len() == before.queries.queries.entries@.len(),
        after.queued_events == before.queued_events,
        after.connected_peers == before.connected_peers,
        event matches FromSwarm::DialFailure { error, .. } ==> ({
            let q = before.queries.queries.entries@[k].1;
            let q2 = after.queries.queries.entries@[k].1;
            &&& error is DialPeerConditionFalse ==> after == before
            &&& !(error is DialPeerConditionFalse) && is_in(q.peers, peer, PeerState::Waiting)
                ==> is_in(q2.peers, peer, PeerState::Failed)
            &&& q2.info == q.info
        }),
{
    if let FromSwarm::DialFailure { peer_id: Some(peer), error, .. } = event {
        if !(error is DialPeerConditionFalse) {
            let addrs = unreachable_addresses(error);
            let mid = choose|mid: Behaviour<S>| #[trigger]
                addresses_failure(before, mid, peer, addrs) && after == (Behaviour {
                    queries: after.queries,
                    ..mid
                }) && each_query(mid.queries, after.queries, peer_failed(peer));
            lemma_failures(before, mid, peer, addrs, k);
            let q = before.queries.queries.entries@[k].1;
            let q1 = mid.queries.queries.entries@[k].1;
            let q2 = after.queries.queries.entries@[k].1;
            assert(q.wf());
            assert(peer_failed(peer)(q1, q2));
            lemma_state(q.peers, peer);
            lemma_state(q1.peers, peer);
            lemma_state(q2.peers, peer);
            lemma_insert_get(
                q1.peers.candidates.entries@,
                peer,
                PeerState::Failed,
                peer,
            );
        }
    }
}

/// Addresses that fail leave the candidates alone, and everything but the routing table and the
/// addresses that queries have learned.
proof fn lemma_failures<S>(
    before: Behaviour<S>,
    after: Behaviour<S>,
    peer: PeerId,
    addrs: Seq<Multiaddr>,
    k: int,
)
    requires
        addresses_failure(before, after, peer, addrs),
        0 <= k < before.queries.queries.entries@.len(),
    ensures
        after == (Behaviour { kbuckets: after.kbuckets, queries: after.queries, ..before }),
        after.queries.queries.entries@.len() == before.queries.queries.entries@.len(),
        ({
            let q = before.queries.queries.entries@[k].1;
            let q2 = after.queries.queries.entries@[k].1;
            q2 == (Query {
                peers: QueryPeers { addresses: q2.peers.addresses, ..q.peers },
                ..q
            })
        }),
    decreases addrs.len(),
{
    if addrs.len() > 0 {
        let mid = choose|mid: Behaviour<S>|
            addresses_failure(before, mid, peer, addrs.drop_last()) && #[trigger] address_failure(
                mid,
                after,
                peer,
                addrs.last(),
            );
        lemma_failures(before, mid, peer, addrs.drop_last(), k);
        assert(address_dropped(peer, addrs.last())(
            mid.queries.queries.entries@[k].1,
            after.queries.queries.entries@[k].1,
        ));
    }
}

/// A peer to which a connection comes about is connected, and those that were stay so.
pub proof fn law_new_peer_is_connected<S>(
    before: Behaviour<S>,
    after: Behaviour<S>,
    event: FromSwarm,
    peer: PeerId,
    p: PeerId,
)
    requires
        before.wf(),
        news_handled(before, after, event),
        event matches FromSwarm::ConnectionEstablished { peer_id, other_established, .. } && peer_id
            == peer && other_established == 0,
    ensures
        after.connected_peers@.contains(p) <==> before.connected_peers@.contains(p) || p == peer,
        after.queued_events == before.queued_events,
        after.store == before.store,
        after.connections == before.connections,
{
    if let FromSwarm::ConnectionEstablished { failed_addresses, .. } = event {
        let mid = choose|mid: Behaviour<S>| #[trigger]
            addresses_failure(before, mid, peer, failed_addresses@) && after == (Behaviour {
                connected_peers: after.connected_peers,
                ..mid
            }) && after.connected_peers@ == mid.connected_peers@.insert(peer);
        lemma_failures_frame(before, mid, peer, failed_addresses@);
    }
}

/// Addresses that fail leave everything alone but the routing table and the queries.
proof fn lemma_failures_frame<S>(
    before: Behaviour<S>,
    after: Behaviour<S>,
    peer: PeerId,
    addrs: Seq<Multiaddr>,
)
    requires
        addresses_failure(before, after, peer, addrs),
    ensures
        after == (Behaviour { kbuckets: after.kbuckets, queries: after.queries, ..before }),
    decreases addrs.len(),
{
    if addrs.len() > 0 {
        let mid = choose|mid: Behaviour<S>|
            addresses_failure(before, mid, peer, addrs.drop_last()) && #[trigger] address_failure(
                mid,
                after,
                peer,
                addrs.last(),
            );
        lemma_failures_frame(before, mid, peer, addrs.drop_last());
    }
}

/// A peer is dialed at every address that the routing table holds of it, and at every address that
/// a running query has learned of it, and at no other.
pub proof fn law_known_addresses_are_dialed<S>(b: Behaviour<S>, peer: PeerId, a: Multiaddr)
    requires
        b.wf(),
    ensures
        dialing_addresses(b, Some(peer)).contains(a) <==> table_lists(b.kbuckets@, peer, a)
            || query_lists(b.queries.queries.entries@, peer, a),
        dialing_addresses(b, None::<PeerId>).len() == 0,
{
    let t = b.kbuckets@;
    let entries = b.queries.queries.entries@;
    t.lemma_place(key_of_peer(peer));
    let in_table = match t.place_of(peer) {
        Place::Present(i) => t.nodes[i].addrs,
        _ => Seq::empty(),
    };
    let more = learned_addresses(entries, peer);
    let all = dialing_addresses(b, Some(peer));
    lemma_learned_iff(entries, peer, a);
    if table_lists(t, peer, a) {
        let i = choose|i: int|
            0 <= i < t.nodes.len() && key_of_peer((#[trigger] t.nodes[i]).peer) == key_of_peer(peer)
                && t.nodes[i].addrs.contains(a);
        t.lemma_present(i);
        assert(all[in_table.index_of(a)] == a);
    }
    if more.contains(a) {
        assert(all[in_table.len() + more.index_of(a)] == a);
    }
    if all.contains(a) {
        let k = all.index_of(a);
        if k < in_table.len() {
            assert(in_table[k] == a);
            if let Place::Present(i) = t.place_of(peer) {
                assert(t.nodes[i].addrs.contains(a));
            }
        } else {
            assert(more[k - in_table.len()] == a);
        }
    }
}

/// Whether the routing table holds an address of a peer.
pub open spec fn table_lists(t: TableView, peer: PeerId, a: Multiaddr) -> bool {
    exists|i: int|
        0 <= i < t.nodes.len() && key_of_peer((#[trigger] t.nodes[i]).peer) == key_of_peer(peer)
            && t.nodes[i].addrs.contains(a)
}

/// Whether a running query has learned an address of a peer.
pub open spec fn query_lists(entries: Seq<(QueryId, Query)>, peer: PeerId, a: Multiaddr) -> bool {
    exists|i: int|
        0 <= i < entries.len() && learned_by((#[trigger] entries[i]).1, peer, a)
}

/// Whether a query has learned an address of a peer.
pub open spec fn learned_by(q: Query, peer: PeerId, a: Multiaddr) -> bool {
    q.peers.addresses@.contains_key(peer) && q.peers.addresses@[peer]@.contains(a)
}

/// What all queries have learned is what each has.
proof fn lemma_learned_iff(entries: Seq<(QueryId, Query)>, peer: PeerId, a: Multiaddr)
    requires
        forall|i: int| 0 <= i < entries.len() ==> (#[trigger] entries[i]).1.wf(),
    ensures
        learned_addresses(entries, peer).contains(a) <==> query_lists(entries, peer, a),
    decreases entries.len(),
{
    if entries.len() > 0 {
        let front = entries.drop_last();
        let n = entries.len() - 1;
        assert forall|i: int| 0 <= i < front.len() implies (#[trigger] front[i]).1.wf() by {
            assert(front[i] == entries[i]);
        }
        lemma_learned_iff(front, peer, a);
        let before = learned_addresses(front, peer);
        let known = entries.last().1.peers.addresses.entries@;
        let more = addrs_of(addr_views(known), peer);
        let all = learned_addresses(entries, peer);
        assert(entries[n] == entries.last());
        lemma_addr_views_key(known, peer);
        assert(entries_map(known).contains_key(peer) == has_key(known, peer));
        assert(more.contains(a) <==> learned_by(entries[n].1, peer, a));
        if before.contains(a) {
            assert(all[before.index_of(a)] == a);
            let i = choose|i: int|
                0 <= i < front.len() && learned_by((#[trigger] front[i]).1, peer, a);
            assert(learned_by(entries[i].1, peer, a));
        }
        if more.contains(a) {
            assert(all[before.len() + more.index_of(a)] == a);
        }
        if all.contains(a) {
            let k = all.index_of(a);
            if k < before.len() {
                assert(before[k] == a);
            } else {
                assert(more[k - before.len()] == a);
            }
        }
        if query_lists(entries, peer, a) {
            let i = choose|i: int|
                0 <= i < entries.len() && learned_by((#[trigger] entries[i]).1, peer, a);
            if i < n {
                assert(learned_by(front[i].1, peer, a));
            }
        }
    }
}

/// A query is taken for late exactly if it was started, and its time is over; only then does a
/// timeout end it.
pub proof fn law_query_times_out_in_time(
    before: QueryPool,
    after: QueryPool,
    id: QueryId,
    now: Moment,
    r: PoolState,
)
    requires
        before.wf(),
        pool_polled(before, after, LookupStep::TimedOut { id }, now, r),
    ensures
        r is Timeout <==> before.queries@.contains_key(id) && (
        before.queries@[id].stats.start matches Some(t) && now.nanos >= t.nanos
            + before.config.timeout@),
        r matches PoolState::Timeout(q) ==> {
            &&& !after.queries@.contains_key(id)
            &&& q.id == id
            &&& q.info == before.queries@[id].info
            &&& q.peers == before.queries@[id].peers
            &&& q.stats.requests == before.queries@[id].stats.requests
            &&& q.stats.start == before.queries@[id].stats.start
            &&& q.stats.end == Some(now)
        },
        !(r is Timeout) ==> after == before,
{
    let entries = before.queries.entries@;
    assert(entries_map(entries).contains_key(id) == has_key(entries, id));
    if has_key(entries, id) {
        assert(entries[key_index(entries, id)].1.id == id) by {
            assert(before.wf());
            let k = key_index(entries, id);
            assert(entries[k].1.id == entries[k].0);
        }
    }
    lemma_entries_remove(entries, id);
    if r is Timeout {
        assert(entries_map(after.queries.entries@) == entries_map(entries).remove(id));
    }
}

/// A query that has nothing left to do is taken out as it is, with its statistics up to now.
pub proof fn law_finished_query_is_taken_out(
    before: QueryPool,
    after: QueryPool,
    id: QueryId,
    now: Moment,
    r: PoolState,
    other: QueryId,
)
    requires
        before.wf(),
        pool_polled(before, after, LookupStep::Finished { id }, now, r),
    ensures
        r is Finished <==> before.queries@.contains_key(id),
        r matches PoolState::Finished(q) ==> {
            let old_query = before.queries@[id];
            &&& q.id == id
            &&& q.info == old_query.info
            &&& q.peers == old_query.peers
            &&& q.stats.requests == old_query.stats.requests
            &&& q.stats.success == old_query.stats.success
            &&& q.stats.failure == old_query.stats.failure
            &&& q.stats.end == Some(now)
            &&& old_query.stats.start is Some ==> q.stats.start == old_query.stats.start
        },
        after.queries@.contains_key(other) <==> before.queries@.contains_key(other) && other != id,
        after.queries@.contains_key(other) ==> after.queries@[other] == before.queries@[other],
{
    let entries = before.queries.entries@;
    assert(entries_map(entries).contains_key(id) == has_key(entries, id));
    if has_key(entries, id) {
        let k = key_index(entries, id);
        assert(entries[k].1.id == entries[k].0);
    }
    lemma_entries_remove(entries, id);
    if r is Finished {
        assert(entries_map(after.queries.entries@) == entries_map(entries).remove(id));
    }
}

/// A peer that has stored a record is counted once, and the storing is to end as soon as enough
/// have: no peer that was counted is lost.
pub proof fn law_storing_peers_are_counted<S: RecordStore>(
    before: Behaviour<S>,
    after: Behaviour<S>,
    source: PeerId,
    connection: ConnectionId,
    event: HandlerEvent,
    now: Moment,
    id: QueryId,
    p: PeerId,
    other: QueryId,
)
    requires
        before.wf(),
        event_handled(before, after, source, connection, event, now),
        event matches HandlerEvent::PutRecordRes { query_id } && query_id == id,
    ensures
        after.queries@.contains_key(other) <==> before.queries@.contains_key(other),
        other != id && before.queries@.contains_key(other) ==> after.queries@[other]
            == before.queries@[other],
        after == (Behaviour { queries: after.queries, ..before }),
        before.queries@.contains_key(id) ==> ({
            let q = before.queries@[id];
            let q2 = after.queries@[id];
            &&& is_in(q.peers, source, PeerState::Waiting) ==> is_in(
                q2.peers,
                source,
                PeerState::Succeeded,
            )
            &&& q.info matches QueryInfo::PutRecord {
                record,
                quorum,
                phase: PutRecordPhase::PutRecord { success, .. },
                context,
            } ==> (q2.info matches QueryInfo::PutRecord {
                record: r2,
                quorum: n2,
                phase: PutRecordPhase::PutRecord { success: s2, .. },
                context: c2,
            } && {
                &&& r2 == record && n2 == quorum && c2 == context
                &&& s2@.contains(p) <==> success@.contains(p) || p == source
                &&& s2@.no_duplicates()
                &&& q2.peers.finished <==> q.peers.finished || s2@.len() >= quorum@
            })
            &&& !(q.info is PutRecord) ==> q2.info == q.info && q2.peers.finished
                == q.peers.finished
        }),
{
    let entries = before.queries.queries.entries@;
    assert(entries_map(entries).contains_key(id) == has_key(entries, id));
    if has_key(entries, id) {
        let at = key_index(entries, id);
        let q = entries[at].1;
        let q2 = after.queries.queries.entries@[at].1;
        assert(q.wf());
        lemma_others_stay(before.queries, after.queries, id, q2, other);
        lemma_others_stay(before.queries, after.queries, id, q2, id);
        assert(stored_at(source)(q, q2));
        let cand = q.peers.candidates.entries@;
        lemma_state(q.peers, source);
        lemma_state(q2.peers, source);
        let marked = entries_insert(cand, source, PeerState::Succeeded);
        lemma_entries_insert(cand, source, PeerState::Succeeded);
        lemma_insert_get(cand, source, PeerState::Succeeded, source);
        lemma_learned_state(marked, Seq::empty(), source);
        if let QueryInfo::PutRecord {
            phase: PutRecordPhase::PutRecord { success, .. },
            ..
        } = q.info {
            lemma_with_item(success@, source);
        }
    }
}

/// A query that is cancelled is gone at once, and every other one goes on as it is. It is said
/// whether there was one.
pub proof fn law_cancelled_query_leaves_pool<S>(
    before: Behaviour<S>,
    after: Behaviour<S>,
    id: QueryId,
    r: bool,
    other: QueryId,
)
    requires
        before.wf(),
        query_cancelled(before, after, id, r),
    ensures
        r <==> before.queries@.contains_key(id),
        after.queries@.contains_key(other) <==> before.queries@.contains_key(other) && other != id,
        after.queries@.contains_key(other) ==> after.queries@[other] == before.queries@[other],
        after.queries.next_id == before.queries.next_id,
        after == (Behaviour { queries: after.queries, ..before }),
{
    let entries = before.queries.queries.entries@;
    assert(before.queries.wf());
    lemma_entries_remove(entries, id);
    assert(entries_map(entries).contains_key(id) == has_key(entries, id));
    assert(entries_map(after.queries.queries.entries@) == entries_map(entries).remove(id));
}

/// The handler of a new connection is told how the peer is connected: by whom it was dialed, at
/// which addresses and in which role. Which handler serves requests is up to the mode of the node.
pub proof fn law_handler_knows_its_connection<S>(
    before: Behaviour<S>,
    accepting: Behaviour<S>,
    dialing: Behaviour<S>,
    connection: ConnectionId,
    peer: PeerId,
    local_addr: Multiaddr,
    remote_addr: Multiaddr,
    role_override: Endpoint,
    port_use: PortUse,
    accepted: NewHandler,
    dialed: NewHandler,
)
    requires
        connection_accepted(
            before,
            accepting,
            connection,
            peer,
            local_addr,
            remote_addr,
            accepted,
        ),
        connection_dialed(
            before,
            dialing,
            connection,
            peer,
            remote_addr,
            role_override,
            port_use,
            dialed,
        ),
    ensures
        accepted.endpoint matches ConnectedPoint::Listener { local_addr: l, send_back_addr } && l
            == local_addr && send_back_addr == remote_addr,
        dialed.endpoint matches ConnectedPoint::Dialer { address, role_override: r, port_use: u }
            && address == remote_addr && r == role_override && u == port_use,
        accepted.remote_peer_id == peer && dialed.remote_peer_id == peer,
        accepted.mode == before.mode && dialed.mode == before.mode,
        accepted.preloaded@ == dialed.preloaded@,
{
}

} // verus!
