//! Laws of the Kademlia behaviour that relate several of its operations.

use libp2p_core::Multiaddr;
use libp2p_identity::PeerId;
use libp2p_swarm::ConnectionId;
use vstd::arithmetic::power2::lemma2_to64;
use vstd::arithmetic::power2::lemma_pow2_pos;
use vstd::arithmetic::power2::lemma_pow2_unfold;
use vstd::arithmetic::power2::pow2;
use vstd::prelude::*;

use crate::assoc::entries_insert;
use crate::assoc::entries_map;
use crate::assoc::entries_remove;
use crate::assoc::first_index;
use crate::assoc::has_key;
use crate::assoc::key_index;
use crate::assoc::keys_distinct;
use crate::assoc::lemma_entries_insert;
use crate::assoc::lemma_entries_remove;
use crate::assoc::lemma_first_index;
use crate::assoc::lemma_insert_get;
use crate::assoc::lemma_key_index;
use crate::assoc::lemma_with_item;
use crate::assoc::with_item;
use crate::kad::answers::learned;
use crate::kad::answers::others;
use crate::kad::behaviour::Behaviour;
use crate::kad::behaviour::Request;
use crate::kad::cache::lemma_cached;
use crate::kad::cache::lemma_with_candidate;
use crate::kad::cache::sorted;
use crate::kad::cache::with_candidate;
use crate::kad::config::Caching;
use crate::kad::connections::dialing_addresses;
use crate::kad::connections::handler_made;
use crate::kad::connections::learned_addresses;
use crate::kad::connections::news_handled;
use crate::kad::connections::NewHandler;
use crate::kad::events::Event;
use crate::kad::events::PutRecordContext;
use crate::kad::events::QueryInfo;
use crate::kad::events::RoutingUpdate;
use crate::kad::finish::put_result;
use crate::kad::finish::query_done;
use crate::kad::finish::query_timed_out;
use crate::kad::inbound::decreased;
use crate::kad::inbound::event_handled;
use crate::kad::inbound::received_until;
use crate::kad::jobs::JOBS_MAX_NEW_QUERIES;
use crate::kad::jobs::JOBS_MAX_QUERIES;
use crate::kad::kbucket::lemma_filter_member;
use crate::kad::kbucket::lemma_filter_push;
use crate::kad::kbucket::peers_of;
use crate::kad::kbucket::EntryView;
use crate::kad::kbucket::NodeStatus;
use crate::kad::kbucket::NodeView;
use crate::kad::kbucket::Place;
use crate::kad::kbucket::TableView;
use crate::kad::key::key_of_bytes;
use crate::kad::key::key_of_peer;
use crate::kad::key::lemma_pow2_monotonic;
use crate::kad::key::KeyBytes;
use crate::kad::lookups::closest_answer;
use crate::kad::lookups::closest_but;
use crate::kad::lookups::not_peer;
use crate::kad::lookups::query_in;
use crate::kad::mode::mode_for;
use crate::kad::mode::mode_set;
use crate::kad::order::at_most;
use crate::kad::order::by_distance;
use crate::kad::order::in_order;
use crate::kad::order::law_by_distance_sorts;
use crate::kad::order::lemma_by_distance_distinct;
use crate::kad::order::peer_distance;
use crate::kad::poll::allowed;
use crate::kad::poll::capacity;
use crate::kad::poll::decision_handled;
use crate::kad::poll::room_after;
use crate::kad::poll::PollOutput;
use crate::kad::pool::first_rpc;
use crate::kad::pool::rpc_taken;
use crate::kad::protocol::kad_peers;
use crate::kad::protocol::HandlerEvent;
use crate::kad::protocol::HandlerIn;
use crate::kad::protocol::KadPeerView;
use crate::kad::protocol::Mode;
use crate::kad::protocol::QueryId;
use crate::kad::protocol::RequestId;
use crate::kad::query::addr_views;
use crate::kad::query::addrs_of;
use crate::kad::query::awaits;
use crate::kad::query::pool_polled;
use crate::kad::query::succeeded;
use crate::kad::query::LookupStep;
use crate::kad::query::PeerState;
use crate::kad::query::PeersKind;
use crate::kad::query::PoolState;
use crate::kad::query::Query;
use crate::kad::query::QueryPeers;
use crate::kad::query::QueryPool;
use crate::kad::record::expired;
use crate::kad::record::Key;
use crate::kad::record::Record;
use crate::kad::record::RecordStore;
use crate::kad::routing::address_added;
use crate::kad::routing::address_failed_in;
use crate::kad::routing::address_removed;
use crate::kad::routing::status_of;
use crate::net::external_addrs;
use crate::net::p2p_qualified;
use crate::nonzero::NonZeroUsize;
use crate::swarm::ConnectedPoint;
use crate::swarm::FromSwarm;
use crate::swarm::NotifyHandler;
use crate::swarm::ToSwarm;
use crate::time::Duration;
use crate::time::Moment;

verus! {

////////////////////////////////////////////////////////////////////////////////
// The closest peers

/// What is selected from a list in order is in order.
proof fn lemma_in_order_filter(list: Seq<PeerId>, target: KeyBytes, f: spec_fn(PeerId) -> bool)
    requires
        in_order(list, target),
    ensures
        in_order(list.filter(f), target),
    decreases list.len(),
{
    reveal(Seq::filter);
    if list.len() > 0 {
        let front = list.drop_last();
        lemma_in_order_filter(front, target, f);
        let kept = list.filter(f);
        let some = front.filter(f);
        assert forall|i: int, j: int| 0 <= i <= j < kept.len() implies peer_distance(
            #[trigger] kept[i],
            target,
        ).le(peer_distance(#[trigger] kept[j], target)) by {
            if j < some.len() {
                assert(kept[i] == some[i] && kept[j] == some[j]);
            } else if i < some.len() {
                lemma_filter_member(front, f, i);
                let k = front.index_of(some[i]);
                assert(list[k] == some[i]);
                assert(list[list.len() - 1] == list.last());
            }
        }
    }
}

/// A peer that asks for the peers closest to a key is told no more than a number of them,
/// never itself, and from the closest to the farthest. A peer of the routing table that it is
/// not told is at least as far as all that it is told, and it is told as many as it may be.
pub proof fn law_closest_answer(
    t: TableView,
    target: KeyBytes,
    source: PeerId,
    n: nat,
    left_out: PeerId,
)
    requires
        t.wf(),
    ensures
        ({
            let answer = closest_answer(t, target, source, n);
            let peers = Seq::new(answer.len(), |i: int| answer[i].peer);
            &&& answer.len() <= n
            &&& peers == closest_but(t, target, source, n)
            &&& in_order(peers, target)
            &&& !peers.contains(source)
            &&& peers_of(t.nodes).contains(left_out) && left_out != source && !peers.contains(
                left_out,
            ) ==> answer.len() == n && (forall|i: int|
                0 <= i < n ==> peer_distance(#[trigger] peers[i], target).le(
                    peer_distance(left_out, target),
                ))
        }),
{
    let answer = closest_answer(t, target, source, n);
    let peers = Seq::new(answer.len(), |i: int| answer[i].peer);
    let order = t.closest_peers(target);
    let f = not_peer(source);
    let all = order.filter(f);
    law_by_distance_sorts(peers_of(t.nodes), target);
    lemma_in_order_filter(order, target, f);
    let chosen = closest_but(t, target, source, n);
    assert forall|i: int| 0 <= i < chosen.len() implies answer[i].peer == chosen[i] by {
        lemma_filter_member(order, f, i);
        assert(chosen[i] == all[i]);
        assert(order.contains(chosen[i]));
        let k = peers_of(t.nodes).index_of(chosen[i]);
        assert(t.nodes[k].peer == chosen[i]);
        t.lemma_present(k);
    }
    assert(peers =~= chosen);
    assert forall|i: int, j: int| 0 <= i <= j < peers.len() implies peer_distance(
        #[trigger] peers[i],
        target,
    ).le(peer_distance(#[trigger] peers[j], target)) by {
        assert(peers[i] == all[i] && peers[j] == all[j]);
    }
    if peers.contains(source) {
        let i = peers.index_of(source);
        lemma_filter_member(order, f, i);
    }
    if peers_of(t.nodes).contains(left_out) && left_out != source && !peers.contains(left_out) {
        assert(order.contains(left_out));
        let k = order.index_of(left_out);
        order.lemma_filter_contains(f, k);
        assert(all.contains(left_out));
        let j = all.index_of(left_out);
        if j < peers.len() {
            assert(peers[j] == left_out);
        }
        assert forall|i: int| 0 <= i < n implies peer_distance(#[trigger] peers[i], target).le(
            peer_distance(left_out, target),
        ) by {
            assert(peers[i] == all[i] && all[j] == left_out);
        }
    }
}

/// A peer that has answered is a candidate that has.
pub proof fn lemma_succeeded(entries: Seq<(PeerId, PeerState)>, p: PeerId)
    ensures
        succeeded(entries).contains(p) <==> exists|i: int|
            0 <= i < entries.len() && #[trigger] entries[i] == (p, PeerState::Succeeded),
    decreases entries.len(),
{
    if entries.len() > 0 {
        let front = entries.drop_last();
        let before = succeeded(front);
        let all = succeeded(entries);
        lemma_succeeded(front, p);
        let n = entries.len() - 1;
        assert(entries[n] == entries.last());
        if all.contains(p) {
            let k = all.index_of(p);
            if k < before.len() {
                assert(before[k] == p);
                let i = choose|i: int|
                    0 <= i < front.len() && #[trigger] front[i] == (p, PeerState::Succeeded);
                assert(entries[i] == (p, PeerState::Succeeded));
            } else {
                assert(entries[n] == (p, PeerState::Succeeded));
            }
        }
        if exists|i: int| 0 <= i < entries.len() && #[trigger] entries[i] == (p, PeerState::Succeeded) {
            let i = choose|i: int|
                0 <= i < entries.len() && #[trigger] entries[i] == (p, PeerState::Succeeded);
            if i < n {
                assert(front[i] == (p, PeerState::Succeeded));
                let k = before.index_of(p);
                assert(all[k] == p);
            } else {
                assert(all[before.len() as int] == p);
            }
        }
    }
}

/// The candidates that have answered are distinct, as all candidates are.
pub proof fn lemma_succeeded_distinct(entries: Seq<(PeerId, PeerState)>)
    requires
        keys_distinct(entries),
    ensures
        succeeded(entries).no_duplicates(),
    decreases entries.len(),
{
    if entries.len() > 0 {
        let front = entries.drop_last();
        let before = succeeded(front);
        lemma_succeeded_distinct(front);
        if before.contains(entries.last().0) {
            lemma_succeeded(front, entries.last().0);
            let i = choose|i: int|
                0 <= i < front.len() && #[trigger] front[i] == (
                    entries.last().0,
                    PeerState::Succeeded,
                );
            assert(entries[i].0 == entries[entries.len() - 1].0);
        }
    }
}

/// The peers that a search finds go from the closest to the farthest, are distinct, are no
/// more than were to be found, and have all answered.
pub proof fn law_search_results(
    peers: QueryPeers,
    target: KeyBytes,
    num_results: NonZeroUsize,
    found: PeerId,
)
    requires
        peers.wf(),
        peers.kind == (PeersKind::Closest { target, num_results }),
    ensures
        in_order(peers.results(), target),
        peers.results().no_duplicates(),
        peers.results().len() <= num_results@,
        peers.results().contains(found) ==> exists|i: int|
            0 <= i < peers.candidates.entries@.len() && #[trigger] peers.candidates.entries@[i] == (
                found,
                PeerState::Succeeded,
            ),
{
    let done = succeeded(peers.candidates.entries@);
    let order = by_distance(done, target);
    law_by_distance_sorts(done, target);
    lemma_succeeded_distinct(peers.candidates.entries@);
    lemma_by_distance_distinct(done, target);
    let r = peers.results();
    assert forall|i: int, j: int| 0 <= i <= j < r.len() implies peer_distance(
        #[trigger] r[i],
        target,
    ).le(peer_distance(#[trigger] r[j], target)) by {
        assert(r[i] == order[i] && r[j] == order[j]);
    }
    if r.contains(found) {
        let i = r.index_of(found);
        assert(order[i] == found);
        assert(order.contains(found));
        lemma_succeeded(peers.candidates.entries@, found);
    }
}

////////////////////////////////////////////////////////////////////////////////
// Reports of queries

/// Whether polling yields the last report of a query.
pub open spec fn yields_last(r: PollOutput, id: QueryId) -> bool {
    r matches PollOutput::Ready(
        ToSwarm::GenerateEvent(Event::OutboundQueryProgressed { id: i, step, .. }),
    ) && i == id && step.last
}

/// Whether polling yields a report of a query that is not the last one.
pub open spec fn yields_more(r: PollOutput, id: QueryId) -> bool {
    r matches PollOutput::Ready(
        ToSwarm::GenerateEvent(Event::OutboundQueryProgressed { id: i, step, .. }),
    ) && i == id && !step.last
}

/// A query that is removed from the pool is not there.
proof fn lemma_gone(entries: Seq<(QueryId, Query)>, id: QueryId)
    requires
        keys_distinct(entries),
    ensures
        !has_key(entries_remove(entries, id), id),
{
    let left = entries_remove(entries, id);
    if has_key(entries, id) && has_key(left, id) {
        let at = key_index(entries, id);
        let i = key_index(left, id);
        let i0 = if i < at {
            i
        } else {
            i + 1
        };
        assert(left[i] == entries[i0]);
        lemma_key_index(entries, i0);
    }
}

/// A query that ends makes its last report and is no longer running; one that makes another
/// report when it ends is still running. The same holds of one that times out.
pub proof fn law_last_report_ends_query<S>(
    before: Behaviour<S>,
    mid: Behaviour<S>,
    after: Behaviour<S>,
    id: QueryId,
    step: LookupStep,
    state: PoolState,
    now: Moment,
    r: PollOutput,
)
    requires
        before.wf(),
        step == (LookupStep::Finished { id }) || step == (LookupStep::TimedOut { id }),
        !(state is Idle),
        mid == (Behaviour { queries: mid.queries, ..before }),
        pool_polled(before.queries, mid.queries, step, now, state),
        decision_handled(mid, after, state, now, r),
    ensures
        yields_last(r, id) ==> !has_key(after.queries.queries.entries@, id),
        yields_more(r, id) ==> has_key(after.queries.queries.entries@, id),
{
    let entries = before.queries.queries.entries@;
    lemma_gone(entries, id);
    lemma_entries_remove(entries, id);
    let q = entries[key_index(entries, id)].1;
    assert(before.queries.wf());
    assert(q.id == id);
    let left = mid.queries.queries.entries@;
    let at = left.len() as int;
    let now_running = after.queries.queries.entries@;
    if now_running == entries_insert(left, id, now_running[key_index(now_running, id)].1) {
        assert(now_running[at].0 == id);
    }
}

/// Whether a query that is over for now goes on under its number in its second phase.
pub open spec fn in_second_phase(pool: QueryPool, id: QueryId) -> bool {
    &&& has_key(pool.queries.entries@, id)
    &&& match query_in(pool, id).info {
        QueryInfo::AddProvider { phase, .. } => phase is AddProvider,
        QueryInfo::PutRecord { phase, .. } => phase is PutRecord,
        _ => false,
    }
}

/// What the end of a query of any kind leads to. A report is the last one if and only if the
/// query is no longer running, so that none follows a last one. Where nothing is reported, the
/// query goes on in its second phase, or it was a replication.
pub proof fn law_report_is_last_iff_query_is_over<S>(
    before: Behaviour<S>,
    after: Behaviour<S>,
    q: Query,
    fresh: Seq<PeerId>,
    r: Option<Event>,
)
    requires
        !has_key(before.queries.queries.entries@, q.id),
        query_done(before, after, q, fresh, r) || query_timed_out(before, after, q, r),
    ensures
        r matches Some(e) ==> (e matches Event::OutboundQueryProgressed { id, step, .. } && id
            == q.id && (step.last <==> !has_key(after.queries.queries.entries@, q.id))),
        r is None ==> in_second_phase(after.queries, q.id) || (q.info matches QueryInfo::PutRecord {
            context,
            ..
        } && context == PutRecordContext::Replicate),
{
    let entries = before.queries.queries.entries@;
    let now_running = after.queries.queries.entries@;
    let at = entries.len() as int;
    if now_running == entries_insert(
        entries,
        q.id,
        now_running[key_index(now_running, q.id)].1,
    ) {
        assert(now_running[at].0 == q.id);
    }
}

/// A query that is removed from the pool is gone, and every other one is still there.
pub proof fn law_cancelled_query_is_gone(pool: QueryPool, id: QueryId, other: QueryId)
    requires
        pool.wf(),
    ensures
        has_key(entries_remove(pool.queries.entries@, id), other) <==> other != id && has_key(
            pool.queries.entries@,
            other,
        ),
{
    let entries = pool.queries.entries@;
    let left = entries_remove(entries, id);
    lemma_entries_remove(entries, id);
    assert(entries_map(left) == entries_map(entries).remove(id));
    assert(entries_map(left).dom().contains(other) == has_key(left, other));
    assert(entries_map(entries).dom().contains(other) == has_key(entries, other));
}

/// A query that was cancelled, or is over, reports nothing any more: answers of peers to its
/// requests, and decisions on it, lead to no event.
pub proof fn law_unknown_query_reports_nothing<S: RecordStore>(
    before: Behaviour<S>,
    after: Behaviour<S>,
    polled: QueryPool,
    source: PeerId,
    connection: ConnectionId,
    event: HandlerEvent,
    step: LookupStep,
    state: PoolState,
    now: Moment,
    id: QueryId,
)
    requires
        !has_key(before.queries.queries.entries@, id),
        event_handled(before, after, source, connection, event, now),
        match event {
            HandlerEvent::FindNodeRes { query_id, .. } => query_id == id,
            HandlerEvent::GetProvidersRes { query_id, .. } => query_id == id,
            HandlerEvent::GetRecordRes { query_id, .. } => query_id == id,
            HandlerEvent::PutRecordRes { query_id } => query_id == id,
            HandlerEvent::QueryError { query_id, .. } => query_id == id,
            _ => false,
        },
        pool_polled(before.queries, polled, step, now, state),
        match step {
            LookupStep::Contact { id: i, .. } => i == id,
            LookupStep::Finished { id: i } => i == id,
            LookupStep::TimedOut { id: i } => i == id,
            LookupStep::Idle => false,
        },
    ensures
        after.queued_events == before.queued_events,
        after.queries == before.queries,
        state is Idle,
        polled == before.queries,
{
}

/// A search for the closest peers is reported once, by the first and last report that it
/// makes.
pub proof fn law_search_is_reported_once<S>(
    before: Behaviour<S>,
    after: Behaviour<S>,
    q: Query,
    fresh: Seq<PeerId>,
    r: Option<Event>,
)
    requires
        q.wf(),
        q.info is GetClosestPeers,
        query_done(before, after, q, fresh, r) || query_timed_out(before, after, q, r),
    ensures
        r matches Some(Event::OutboundQueryProgressed { id, step, .. }) && id == q.id
            && step.count@ == 1 && step.last,
{
}

/// The reports of a query are numbered one after the other: a report has the number that the
/// query is at, and the query goes on to the next.
pub proof fn law_reports_are_numbered<S: RecordStore>(
    before: Behaviour<S>,
    after: Behaviour<S>,
    source: PeerId,
    connection: ConnectionId,
    event: HandlerEvent,
    now: Moment,
    id: QueryId,
)
    requires
        before.wf(),
        event_handled(before, after, source, connection, event, now),
        match event {
            HandlerEvent::GetProvidersRes { query_id, .. } => query_id == id,
            HandlerEvent::GetRecordRes { query_id, .. } => query_id == id,
            _ => false,
        },
        after.queued_events@.len() > before.queued_events@.len(),
    ensures
        after.queued_events@.last() matches ToSwarm::GenerateEvent(
            Event::OutboundQueryProgressed { id: i, step, .. },
        ) && i == id && !step.last && (query_in(before.queries, id).info.step() matches Some(
            current,
        ) && current.count@ == step.count@) && (query_in(after.queries, id).info.step() matches Some(
            next,
        ) && next.count@ == step.count@ + 1),
{
    let entries = before.queries.queries.entries@;
    if has_key(entries, id) {
        let at = key_index(entries, id);
        let q2 = after.queries.queries.entries@[at].1;
        lemma_insert_get(entries, id, q2, id);
    }
}

/// The query that an answer with peers belongs to.
pub open spec fn query_of(event: HandlerEvent) -> Option<QueryId> {
    match event {
        HandlerEvent::FindNodeRes { query_id, .. } => Some(query_id),
        HandlerEvent::GetProvidersRes { query_id, .. } => Some(query_id),
        HandlerEvent::GetRecordRes { query_id, .. } => Some(query_id),
        _ => None,
    }
}

/// The peers that an answer names.
pub open spec fn peers_in(event: HandlerEvent) -> Seq<KadPeerView> {
    match event {
        HandlerEvent::FindNodeRes { closer_peers, .. } => kad_peers(closer_peers@),
        HandlerEvent::GetProvidersRes { closer_peers, provider_peers, .. } => kad_peers(
            closer_peers@,
        ) + kad_peers(provider_peers@),
        HandlerEvent::GetRecordRes { closer_peers, .. } => kad_peers(closer_peers@),
        _ => Seq::empty(),
    }
}

/// The addresses of a peer are those that it was last named with.
proof fn lemma_learned_last(
    known: Seq<(PeerId, Seq<Multiaddr>)>,
    list: Seq<KadPeerView>,
    f: spec_fn(KadPeerView) -> bool,
    i: int,
)
    requires
        keys_distinct(known),
        0 <= i < list.len(),
        f(list[i]),
        forall|j: int| i < j < list.len() ==> (#[trigger] list[j]).peer != list[i].peer,
    ensures
        keys_distinct(learned(known, list.filter(f))),
        has_key(learned(known, list.filter(f)), list[i].peer),
        addrs_of(learned(known, list.filter(f)), list[i].peer) == list[i].addrs,
    decreases list.len(),
{
    let front = list.drop_last();
    let last = list.last();
    let so_far = learned(known, front.filter(f));
    assert(list =~= front.push(last));
    lemma_filter_push(front, last, f);
    lemma_learned_distinct(known, front.filter(f));
    if f(last) {
        assert(list.filter(f).drop_last() =~= front.filter(f));
        lemma_entries_insert(so_far, last.peer, last.addrs);
        lemma_insert_get(so_far, last.peer, last.addrs, list[i].peer);
    }
    if i < front.len() {
        assert(front[i] == list[i]);
        assert forall|j: int| i < j < front.len() implies (#[trigger] front[j]).peer
            != front[i].peer by {
            assert(front[j] == list[j]);
        }
        lemma_learned_last(known, front, f, i);
    }
}

/// Learning addresses keeps the peers distinct.
proof fn lemma_learned_distinct(known: Seq<(PeerId, Seq<Multiaddr>)>, list: Seq<KadPeerView>)
    requires
        keys_distinct(known),
    ensures
        keys_distinct(learned(known, list)),
    decreases list.len(),
{
    if list.len() > 0 {
        lemma_learned_distinct(known, list.drop_last());
        lemma_entries_insert(
            learned(known, list.drop_last()),
            list.last().peer,
            list.last().addrs,
        );
    }
}

/// An address that a running query has learned is among those of all of them.
proof fn lemma_learned_is_dialed(
    entries: Seq<(QueryId, Query)>,
    at: int,
    peer: PeerId,
    a: Multiaddr,
)
    requires
        0 <= at < entries.len(),
        addrs_of(addr_views(entries[at].1.peers.addresses.entries@), peer).contains(a),
    ensures
        learned_addresses(entries, peer).contains(a),
    decreases entries.len(),
{
    let front = entries.drop_last();
    let before = learned_addresses(front, peer);
    let more = addrs_of(addr_views(entries.last().1.peers.addresses.entries@), peer);
    let all = learned_addresses(entries, peer);
    if at < front.len() {
        assert(front[at] == entries[at]);
        lemma_learned_is_dialed(front, at, peer, a);
        assert(all[before.index_of(a)] == a);
    } else {
        assert(all[before.len() + more.index_of(a)] == a);
    }
}

/// A peer that an answer names can be dialed, as long as the query runs: the addresses that it
/// was last named with are among those at which it is dialed.
pub proof fn law_named_peers_are_dialed<S: RecordStore>(
    before: Behaviour<S>,
    after: Behaviour<S>,
    source: PeerId,
    connection: ConnectionId,
    event: HandlerEvent,
    now: Moment,
    i: int,
    a: Multiaddr,
)
    requires
        before.wf(),
        event_handled(before, after, source, connection, event, now),
        query_of(event) matches Some(id) && has_key(before.queries.queries.entries@, id),
        0 <= i < peers_in(event).len(),
        ({
            let list = peers_in(event);
            &&& list[i].peer != before.local_peer_id
            &&& list[i].addrs.contains(a)
            &&& forall|j: int| i < j < list.len() ==> (#[trigger] list[j]).peer != list[i].peer
        }),
    ensures
        dialing_addresses(after, Some(peers_in(event)[i].peer)).contains(a),
{
    let id = query_of(event)->0;
    let list = peers_in(event);
    let peer = list[i].peer;
    let local = before.local_peer_id;
    let entries = before.queries.queries.entries@;
    let at = key_index(entries, id);
    let q = entries[at].1;
    assert(q.wf());
    let known = addr_views(q.peers.addresses.entries@);
    assert(keys_distinct(known)) by {
        assert forall|x: int, y: int| 0 <= x < y < known.len() implies (#[trigger] known[x]).0 != (
        #[trigger] known[y]).0 by {
            assert(q.peers.addresses.entries@[x].0 != q.peers.addresses.entries@[y].0);
        }
    }
    let f = |p: KadPeerView| p.peer != local;
    assert(others(list, local) == list.filter(f));
    lemma_learned_last(known, list, f, i);
    let now_running = after.queries.queries.entries@;
    let q2 = now_running[at].1;
    assert(addr_views(q2.peers.addresses.entries@) == learned(known, others(list, local)));
    lemma_learned_is_dialed(now_running, at, peer, a);
    let in_table = match after.kbuckets@.place_of(peer) {
        Place::Present(k) => after.kbuckets@.nodes[k].addrs,
        _ => Seq::empty(),
    };
    let all = dialing_addresses(after, Some(peer));
    let more = learned_addresses(now_running, peer);
    assert(all[in_table.len() + more.index_of(a)] == a);
}

/// Whether no query has a request that waits for a connection to a peer.
pub open spec fn none_awaits(entries: Seq<(QueryId, Query)>, peer: PeerId) -> bool {
    forall|i: int|
        0 <= i < entries.len() ==> !awaits((#[trigger] entries[i]).1.pending_rpcs@, peer)
}

/// Each query has at most one request that waits for a connection to a peer, so that none is
/// left once the connection has come about.
pub proof fn law_connection_takes_all_requests<S>(
    before: Behaviour<S>,
    after: Behaviour<S>,
    connection: ConnectionId,
    peer: PeerId,
    endpoint: ConnectedPoint,
    handler: NewHandler,
)
    requires
        before.wf(),
        handler_made(before, after, connection, peer, endpoint, handler),
    ensures
        none_awaits(after.queries.queries.entries@, peer),
{
    let entries = before.queries.queries.entries@;
    let now = after.queries.queries.entries@;
    assert forall|i: int| 0 <= i < now.len() implies !awaits(
        (#[trigger] now[i]).1.pending_rpcs@,
        peer,
    ) by {
        let q = entries[i].1;
        let rpcs = q.pending_rpcs@;
        let left = now[i].1.pending_rpcs@;
        assert(q.wf());
        assert(rpc_taken(peer)(q, now[i].1));
        if awaits(left, peer) {
            let j = choose|j: int| 0 <= j < left.len() && (#[trigger] left[j]).0 == peer;
            if exists|k: int| first_rpc(rpcs, peer, k) {
                let k = choose|k: int| first_rpc(rpcs, peer, k);
                let j0 = if j < k {
                    j
                } else {
                    j + 1
                };
                assert(left[j] == rpcs[j0]);
                if j0 < k {
                    assert(rpcs[j0].0 != rpcs[k].0);
                } else {
                    assert(rpcs[k].0 != rpcs[j0].0);
                }
            } else {
                lemma_first_rpc(rpcs, peer, j);
            }
        }
    }
}

/// Of the requests that wait for a connection to a peer, one is the first.
proof fn lemma_first_rpc(rpcs: Seq<(PeerId, HandlerIn)>, peer: PeerId, i: int)
    requires
        0 <= i < rpcs.len(),
        rpcs[i].0 == peer,
    ensures
        exists|k: int| first_rpc(rpcs, peer, k),
    decreases i,
{
    if exists|j: int| 0 <= j < i && (#[trigger] rpcs[j]).0 == peer {
        let j = choose|j: int| 0 <= j < i && (#[trigger] rpcs[j]).0 == peer;
        lemma_first_rpc(rpcs, peer, j);
    } else {
        assert(first_rpc(rpcs, peer, i));
    }
}

/// The storing of a record succeeds if and only if as many distinct peers as the quorum asks
/// for have stored it.
pub proof fn law_put_succeeds_with_quorum(key: Key, success: Vec<PeerId>, quorum: NonZeroUsize)
    requires
        success@.no_duplicates(),
    ensures
        put_result(key, success, quorum) is Ok <==> success@.to_set().len() >= quorum@,
{
    success@.unique_seq_to_set();
}

////////////////////////////////////////////////////////////////////////////////
// The routing table

/// An address that was added successfully is among those at which its peer is dialed.
pub proof fn law_added_address_is_dialed<S>(
    before: Behaviour<S>,
    after: Behaviour<S>,
    peer: PeerId,
    address: Multiaddr,
    now: Moment,
)
    requires
        before.wf(),
        after.wf(),
        address_added(before, after, peer, address, now, RoutingUpdate::Success),
    ensures
        p2p_qualified(address, peer) is Ok,
        dialing_addresses(after, Some(peer)).contains(p2p_qualified(address, peer)->Ok_0),
{
    let addr = p2p_qualified(address, peer)->Ok_0;
    let t = before.kbuckets@;
    let t2 = after.kbuckets@;
    let key = key_of_peer(peer);
    t.lemma_place(key);
    let i = match t.place_of(peer) {
        Place::Present(i) => i,
        _ => t.nodes.len() as int,
    };
    if t.place_of(peer) is Present {
        lemma_with_item(t.nodes[i].addrs, addr);
    }
    assert(t2.nodes[i].key() == key);
    t2.lemma_present(i);
    assert(t2.nodes[i].addrs.contains(addr)) by {
        if t.place_of(peer) is Absent {
            assert(seq![addr][0] == addr);
        }
    }
    let k = t2.nodes[i].addrs.index_of(addr);
    let all = dialing_addresses(after, Some(peer));
    assert(all[k] == addr);
}

/// Whether a request tells the application that the routing table holds a new peer, or a new
/// address of a peer.
pub open spec fn tells_of_peer(request: Request, peer: PeerId, new_peer: bool) -> bool {
    request matches ToSwarm::GenerateEvent(
        Event::RoutingUpdated { peer: p, is_new_peer, .. },
    ) && p == peer && is_new_peer == new_peer
}

/// Adding an address is told to the application if and only if it changes the peers of the
/// routing table, or their addresses.
pub proof fn law_routing_update_is_told<S>(
    before: Behaviour<S>,
    after: Behaviour<S>,
    peer: PeerId,
    address: Multiaddr,
    now: Moment,
    r: RoutingUpdate,
)
    requires
        before.wf(),
        address_added(before, after, peer, address, now, r),
    ensures
        after.kbuckets@.nodes != before.kbuckets@.nodes <==> after.queued_events@.len()
            > before.queued_events@.len() && tells_of_peer(
            after.queued_events@.last(),
            peer,
            before.kbuckets@.place_of(peer) is Absent,
        ),
{
    let t = before.kbuckets@;
    let t2 = after.kbuckets@;
    t.lemma_place(key_of_peer(peer));
    if p2p_qualified(address, peer) is Ok {
        let addr = p2p_qualified(address, peer)->Ok_0;
        match t.place_of(peer) {
            Place::Present(i) => {
                let addrs = with_item(t.nodes[i].addrs, addr);
                lemma_with_item(t.nodes[i].addrs, addr);
                assert(t2.nodes[i].addrs == addrs);
                if t.nodes[i].addrs.contains(addr) {
                    assert(t2.nodes =~= t.nodes);
                } else {
                    assert(addrs.contains(addr));
                }
            },
            Place::Absent => {
                let node = NodeView {
                    peer,
                    addrs: seq![addr],
                    status: status_of(before.connected_peers@, peer),
                };
                if !t.full(t.bucket(node.key())) {
                    assert(t2.nodes.len() == t.nodes.len() + 1);
                }
            },
            _ => {},
        }
    }
}

/// Removing the address of a peer that was added to the routing table, and was not there
/// before, restores the routing table.
pub proof fn law_remove_undoes_add<S>(
    before: Behaviour<S>,
    mid: Behaviour<S>,
    after: Behaviour<S>,
    peer: PeerId,
    address: Multiaddr,
    now: Moment,
    r: Option<EntryView>,
)
    requires
        before.wf(),
        mid.wf(),
        before.kbuckets@.place_of(peer) is Absent,
        address_added(before, mid, peer, address, now, RoutingUpdate::Success),
        address_removed(mid, after, peer, address, r),
    ensures
        r matches Some(e) && e@.peer == peer,
        after.kbuckets@ == before.kbuckets@,
{
    let t = before.kbuckets@;
    let t2 = mid.kbuckets@;
    let n = t.nodes.len() as int;
    assert(t2.nodes[n].peer == peer);
    t2.lemma_present(n);
    assert(t2.nodes.remove(n) =~= t.nodes);
}

/// Removing an address that is not in the routing table changes nothing in it.
pub proof fn law_remove_unknown_address<S>(
    before: Behaviour<S>,
    after: Behaviour<S>,
    peer: PeerId,
    address: Multiaddr,
    r: Option<EntryView>,
)
    requires
        before.wf(),
        address_removed(before, after, peer, address, r),
        p2p_qualified(address, peer) matches Ok(addr) ==> match before.kbuckets@.place_of(peer) {
            Place::Present(i) => !before.kbuckets@.nodes[i].addrs.contains(addr),
            Place::Pending(i) => !before.kbuckets@.pending[i].node.addrs.contains(addr),
            _ => true,
        },
    ensures
        r is None,
        after.kbuckets@ == before.kbuckets@,
{
    let t = before.kbuckets@;
    t.lemma_place(key_of_peer(peer));
    if p2p_qualified(address, peer) is Ok {
        let addr = p2p_qualified(address, peer)->Ok_0;
        assert(seq![addr][0] == addr);
        match t.place_of(peer) {
            Place::Present(i) => {
                assert(t.nodes[i].addrs != seq![addr]) by {
                    if t.nodes[i].addrs == seq![addr] {
                        assert(t.nodes[i].addrs.contains(addr));
                    }
                }
                assert(t.with_node_addrs(i, t.nodes[i].addrs).nodes =~= t.nodes);
            },
            Place::Pending(i) => {
                assert(t.pending[i].node.addrs != seq![addr]) by {
                    if t.pending[i].node.addrs == seq![addr] {
                        assert(t.pending[i].node.addrs.contains(addr));
                    }
                }
                assert(t.with_pending_addrs(i, t.pending[i].node.addrs).pending =~= t.pending);
            },
            _ => {},
        }
    }
}

/// A peer stays in the routing table when its addresses fail, and keeps at least one.
pub proof fn law_failed_addresses_keep_peer(t: TableView, peer: PeerId, addr: Multiaddr, i: int)
    requires
        t.wf(),
        0 <= i < t.nodes.len(),
    ensures
        ({
            let t2 = address_failed_in(t, peer, addr);
            &&& t2.nodes.len() == t.nodes.len()
            &&& t2.nodes[i].peer == t.nodes[i].peer
            &&& t2.nodes[i].addrs.len() > 0
        }),
{
    t.lemma_place(key_of_peer(peer));
    match t.place_of(peer) {
        Place::Present(k) => {
            let list = t.nodes[k].addrs;
            if list.contains(addr) && !(list =~= seq![addr]) {
                let j = list.index_of(addr);
                if list.len() == 1 {
                    assert(list =~= seq![addr]);
                }
                lemma_first(list, addr);
                assert(list.len() >= 2);
            }
        },
        _ => {},
    }
}

/// An element of a list has a first occurrence.
proof fn lemma_first(list: Seq<Multiaddr>, x: Multiaddr)
    requires
        list.contains(x),
    ensures
        0 <= first_index(list, x) < list.len(),
{
    let k = lemma_first_from(list, x, list.index_of(x));
    lemma_first_index(list, x, k);
}

/// The first occurrence lies at or before any other.
proof fn lemma_first_from(list: Seq<Multiaddr>, x: Multiaddr, i: int) -> (k: int)
    requires
        0 <= i < list.len(),
        list[i] == x,
    ensures
        0 <= k < list.len(),
        list[k] == x,
        forall|j: int| 0 <= j < k ==> #[trigger] list[j] != x,
    decreases i,
{
    if exists|j: int| 0 <= j < i && #[trigger] list[j] == x {
        let j = choose|j: int| 0 <= j < i && #[trigger] list[j] == x;
        lemma_first_from(list, x, j)
    } else {
        i
    }
}

/// A peer that is connected in the routing table is among the connected peers, as far as peers
/// are told apart by their keys.
pub proof fn law_connected_peers_cover_table<S>(b: Behaviour<S>, i: int)
    requires
        b.wf(),
        0 <= i < b.kbuckets@.nodes.len(),
        b.kbuckets@.nodes[i].status == NodeStatus::Connected,
    ensures
        exists|p: PeerId| #[trigger]
            b.connected_peers@.contains(p) && key_of_peer(p) == b.kbuckets@.nodes[i].key(),
{
}

/// A waiting peer takes the place of a disconnected peer only.
pub proof fn law_only_disconnected_peers_are_evicted(t: TableView, i: int)
    requires
        t.wf(),
        0 <= i < t.pending.len(),
    ensures
        t.applied(i).1 matches Some(a) ==> (a.evicted matches Some(p) ==> exists|k: int|
            0 <= k < t.nodes.len() && (#[trigger] t.nodes[k]).peer == p && t.nodes[k].status
                == NodeStatus::Disconnected && t.bucket(t.nodes[k].key()) == t.bucket(
                a.inserted.key(),
            )),
{
    let b = t.bucket(t.pending[i].node.key());
    if t.full(b) && (exists|k: int| t.disconnected_at(b, k)) {
        let k0 = choose|k: int| t.disconnected_at(b, k);
        let k1 = t.lemma_stalest(b, k0);
        let k = choose|k: int| t.stalest_at(b, k);
        assert(t.stalest_at(b, k1));
        assert(t.stalest_at(b, k));
    }
}

////////////////////////////////////////////////////////////////////////////////
// Records

/// One more peer that is closer halves the time to live, in whole seconds, and none leaves it.
pub proof fn law_ttl_is_halved(ttl: Duration, exp: u32)
    ensures
        decreased(ttl, 0).secs == ttl.secs,
        exp < u32::MAX ==> decreased(ttl, (exp + 1) as u32).secs == decreased(ttl, exp).secs / 2,
        decreased(ttl, exp).secs <= ttl.secs,
        exp >= 64 ==> decreased(ttl, exp).secs == 0,
{
    lemma2_to64();
    let s = ttl.secs as nat;
    let p = pow2(exp as nat);
    lemma_pow2_pos(exp as nat);
    assert(s / p <= s) by (nonlinear_arith)
        requires
            p > 0,
    ;
    if exp < u32::MAX {
        lemma_pow2_unfold((exp + 1) as nat);
        vstd::arithmetic::div_mod::lemma_div_denominator(s as int, p as int, 2);
        assert(p * 2 == 2 * p);
        assert((s / p) / 2 <= s / p);
    }
    if exp >= 64 {
        lemma_pow2_monotonic(64, exp as nat);
        assert(s / p == 0) by (nonlinear_arith)
            requires
                0 <= s < p,
        ;
    }
}

/// A record that another peer sent is kept no longer than its time to live says, and no longer
/// than it says itself.
pub proof fn law_received_record_expires_in_time(
    expires: Option<Moment>,
    ttl: Duration,
    exceeding: u32,
    now: Moment,
)
    requires
        now.can_add(ttl),
    ensures
        received_until(expires, Some(ttl), exceeding, now) matches Some(t) && t.nanos <= now.nanos
            + ttl@ && (expires matches Some(e) ==> t.nanos <= e.nanos),
{
    law_ttl_is_halved(ttl, exceeding);
    let d = decreased(ttl, exceeding);
    assert(d@ <= ttl@) by {
        assert(d.secs <= ttl.secs);
    }
}

/// Where no time to live is configured, a record that another peer sent expires when it says
/// itself, and is kept for ever only if it says nothing.
pub proof fn law_received_record_without_ttl(
    expires: Option<Moment>,
    exceeding: u32,
    now: Moment,
)
    ensures
        received_until(expires, None, exceeding, now) == expires,
{
}

/// Every running search for a record tracks its candidates for caching from the closest to the
/// farthest, and no more of them than it may: with caching disabled, none.
pub proof fn law_cache_candidates_are_bounded<S>(b: Behaviour<S>, id: QueryId)
    requires
        b.wf(),
        has_key(b.queries.queries.entries@, id),
    ensures
        query_in(b.queries, id).info matches QueryInfo::GetRecord { cache_candidates, .. } ==> {
            &&& sorted(cache_candidates@)
            &&& match b.caching {
                Caching::Enabled { max_peers } => cache_candidates@.len() <= max_peers,
                Caching::Disabled => cache_candidates@.len() == 0,
            }
        },
{
    let entries = b.queries.queries.entries@;
    assert(entries[key_index(entries, id)].1.wf());
}

/// When a peer answers a search without the record, the closest candidates for caching are
/// kept: of those so far and that peer, which are in order, as many from the front as may be
/// tracked.
pub proof fn law_closest_cache_candidates_are_kept<S: RecordStore>(
    before: Behaviour<S>,
    after: Behaviour<S>,
    source: PeerId,
    connection: ConnectionId,
    event: HandlerEvent,
    now: Moment,
    id: QueryId,
)
    requires
        before.wf(),
        event_handled(before, after, source, connection, event, now),
        event matches HandlerEvent::GetRecordRes { record: None, query_id, .. } && query_id == id,
        has_key(before.queries.queries.entries@, id),
        query_in(before.queries, id).info is GetRecord,
        before.caching is Enabled,
    ensures
        query_in(after.queries, id).info is GetRecord,
        ({
            let key = query_in(before.queries, id).info->GetRecord_key;
            let all = with_candidate(
                query_in(before.queries, id).info->GetRecord_cache_candidates@,
                key_of_peer(source).spec_distance(key_of_bytes(key@)),
                source,
            );
            &&& sorted(all)
            &&& query_in(after.queries, id).info->GetRecord_cache_candidates@ == at_most(
                all,
                before.caching->max_peers as nat,
            )
        }),
{
    let entries = before.queries.queries.entries@;
    let at = key_index(entries, id);
    let q = entries[at].1;
    assert(q.wf() && q.info.caches_at_most(before.caching.most_candidates()));
    lemma_insert_get(entries, id, after.queries.queries.entries@[at].1, id);
    let key = q.info->GetRecord_key;
    let list = q.info->GetRecord_cache_candidates@;
    let d = key_of_peer(source).spec_distance(key_of_bytes(key@));
    lemma_with_candidate(list, d, source);
    lemma_cached(list, d, source, before.caching->max_peers as nat);
}

////////////////////////////////////////////////////////////////////////////////
// Requests of peers

/// Whether a handler is told the answer to a request, or to reset its stream.
pub open spec fn settles(event: HandlerIn, request: RequestId) -> bool {
    match event {
        HandlerIn::FindNodeRes { request_id, .. } => request_id == request,
        HandlerIn::GetProvidersRes { request_id, .. } => request_id == request,
        HandlerIn::GetRecordRes { request_id, .. } => request_id == request,
        HandlerIn::PutRecordRes { request_id, .. } => request_id == request,
        HandlerIn::Reset(request_id) => request_id == request,
        _ => false,
    }
}

/// Whether a request of the behaviour settles a request of a peer, on the connection that it
/// came by.
pub open spec fn settles_for(
    r: Request,
    source: PeerId,
    connection: ConnectionId,
    request: RequestId,
) -> bool {
    r matches ToSwarm::NotifyHandler { peer_id, handler, event } && peer_id == source && handler
        == NotifyHandler::One(connection) && settles(event, request)
}

/// The request of a peer that a report of its handler holds, where it has to be answered.
pub open spec fn request_in(event: HandlerEvent) -> Option<RequestId> {
    match event {
        HandlerEvent::FindNodeReq { request_id, .. } => Some(request_id),
        HandlerEvent::GetProvidersReq { request_id, .. } => Some(request_id),
        HandlerEvent::GetRecord { request_id, .. } => Some(request_id),
        HandlerEvent::PutRecord { request_id, .. } => Some(request_id),
        _ => None,
    }
}

/// Every request of a peer is settled, once: of what is queued for it, the last thing is the
/// answer or a reset, on the connection that it came by, and nothing else is for a handler.
pub proof fn law_request_is_settled_once<S: RecordStore>(
    before: Behaviour<S>,
    after: Behaviour<S>,
    source: PeerId,
    connection: ConnectionId,
    event: HandlerEvent,
    now: Moment,
    i: int,
)
    requires
        request_in(event) is Some,
        event_handled(before, after, source, connection, event, now),
        before.queued_events@.len() <= i < after.queued_events@.len(),
    ensures
        after.queued_events@.len() > before.queued_events@.len(),
        settles_for(after.queued_events@.last(), source, connection, request_in(event)->0),
        i < after.queued_events@.len() - 1 ==> after.queued_events@[i] is GenerateEvent,
{
}

/// Every request of a peer leads to something queued.
pub proof fn law_request_is_answered<S: RecordStore>(
    before: Behaviour<S>,
    after: Behaviour<S>,
    source: PeerId,
    connection: ConnectionId,
    event: HandlerEvent,
    now: Moment,
)
    requires
        request_in(event) is Some,
        event_handled(before, after, source, connection, event, now),
    ensures
        after.queued_events@.len() > before.queued_events@.len(),
        settles_for(after.queued_events@.last(), source, connection, request_in(event)->0),
{
}

/// A record that the local node has published is not changed by what others send.
pub proof fn law_own_record_is_not_replaced<S: RecordStore>(
    before: Behaviour<S>,
    after: Behaviour<S>,
    source: PeerId,
    connection: ConnectionId,
    record: Record,
    request_id: RequestId,
    now: Moment,
)
    requires
        record.publisher == Some(before.local_peer_id),
        event_handled(
            before,
            after,
            source,
            connection,
            HandlerEvent::PutRecord { record, request_id },
            now,
        ),
    ensures
        after.store == before.store,
        after == (Behaviour { queued_events: after.queued_events, ..before }),
{
}

/// A record that has expired is told to no peer.
pub proof fn law_expired_record_is_not_told<S: RecordStore>(
    before: Behaviour<S>,
    after: Behaviour<S>,
    source: PeerId,
    connection: ConnectionId,
    key: Key,
    request_id: RequestId,
    now: Moment,
)
    requires
        event_handled(
            before,
            after,
            source,
            connection,
            HandlerEvent::GetRecord { key, request_id },
            now,
        ),
    ensures
        after.queued_events@.last() matches ToSwarm::NotifyHandler {
            event: HandlerIn::GetRecordRes { record, .. },
            ..
        } && (record matches Some(r) ==> !expired(r.expires, now)),
{
}

/// The announcement of a provider by another peer is ignored.
pub proof fn law_foreign_announcement_is_ignored<S: RecordStore>(
    before: Behaviour<S>,
    after: Behaviour<S>,
    source: PeerId,
    connection: ConnectionId,
    event: HandlerEvent,
    now: Moment,
)
    requires
        event matches HandlerEvent::AddProvider { provider, .. } && provider.node_id != source,
        event_handled(before, after, source, connection, event, now),
    ensures
        after == before,
{
}

////////////////////////////////////////////////////////////////////////////////
// The mode

/// Whether the mode is the one that the external addresses call for, where it is chosen by
/// them.
pub open spec fn mode_fits<S>(b: Behaviour<S>) -> bool {
    b.auto_mode ==> b.mode == mode_for(external_addrs(b.external_addresses))
}

/// Where the mode is chosen by the external addresses, it keeps fitting them: the node serves
/// requests if and only if it has a confirmed external address.
pub proof fn law_mode_follows_addresses<S>(
    before: Behaviour<S>,
    after: Behaviour<S>,
    addr: Multiaddr,
    event: FromSwarm,
)
    requires
        mode_fits(before),
        event == (FromSwarm::ExternalAddrConfirmed { addr }) || event == (
        FromSwarm::ExternalAddrExpired { addr }),
        news_handled(before, after, event),
    ensures
        mode_fits(after),
{
    let known = external_addrs(before.external_addresses);
    if known.contains(addr) {
        assert(known.len() > 0);
        lemma_first(known, addr);
    }
}

/// Setting the mode makes it fit.
pub proof fn law_set_mode_fits<S>(
    before: Behaviour<S>,
    after: Behaviour<S>,
    mode: Option<Mode>,
)
    requires
        mode_set(before, after, mode),
    ensures
        mode_fits(after),
        mode matches Some(m) ==> after.mode == m && !after.auto_mode,
        mode is None ==> after.auto_mode,
{
}

////////////////////////////////////////////////////////////////////////////////
// The jobs

/// No job starts more queries at once than it may, and none if too many are running.
pub proof fn law_jobs_are_bounded(pool: QueryPool, found: nat, present: bool)
    ensures
        allowed(capacity(pool)) <= JOBS_MAX_NEW_QUERIES,
        allowed(room_after(capacity(pool), found, present))
            <= JOBS_MAX_NEW_QUERIES,
        pool.queries.entries@.len() >= JOBS_MAX_QUERIES ==> allowed(
            capacity(pool),
        ) == 0 && allowed(room_after(capacity(pool), found, present)) == 0,
{
}

} // verus!
