//! Laws on what the end of a query leads to: its next phase, or what is reported of it.

use libp2p_identity::PeerId;
use vstd::prelude::*;

use crate::kad::behaviour::Behaviour;
use crate::kad::bootstrap::Signal;
use crate::kad::events::AddProviderContext;
use crate::kad::events::AddProviderError;
use crate::kad::events::AddProviderPhase;
use crate::kad::events::BootstrapError;
use crate::kad::events::Event;
use crate::kad::events::GetClosestPeersError;
use crate::kad::events::GetProvidersError;
use crate::kad::events::GetProvidersOk;
use crate::kad::events::GetRecordError;
use crate::kad::events::GetRecordOk;
use crate::kad::events::PeerInfo;
use crate::kad::events::ProgressStep;
use crate::kad::events::PutRecordContext;
use crate::kad::events::PutRecordError;
use crate::kad::events::PutRecordPhase;
use crate::kad::events::PutRecordResult;
use crate::kad::events::QueryInfo;
use crate::kad::events::QueryResult;
use crate::kad::events::QueryStats;
use crate::kad::finish::are_targets;
use crate::kad::finish::law_pick_falls_into_bucket;
use crate::kad::finish::picked;
use crate::kad::finish::query_done;
use crate::kad::finish::query_timed_out;
use crate::kad::finish::refreshed_bucket;
use crate::kad::kbucket::TableView;
use crate::kad::key::key_of_peer;
use crate::kad::key::law_distance_is_a_metric;
use crate::kad::key::KeyBytes;
use crate::kad::lookups::query_in;
use crate::kad::protocol::QueryId;
use crate::kad::query::infos_view;
use crate::kad::query::is_new;
use crate::kad::query::seeds_of;
use crate::kad::query::PeerState;
use crate::kad::query::PeersKind;
use crate::kad::query::Query;
use crate::kad::query::QueryPeers;
use crate::kad::search_laws::is_candidate;
use crate::kad::search_laws::is_in;
use crate::kad::search_laws::law_results_come_with_addresses;
use crate::kad::search_laws::lemma_new_query;
use crate::kad::search_laws::lemma_others_stay;
use crate::net::external_addrs;

verus! {

/// Whether an event reports on a query, with the given statistics.
pub open spec fn reports_on(r: Option<Event>, id: QueryId, stats: QueryStats) -> bool {
    r matches Some(Event::OutboundQueryProgressed { id: i, stats: s, .. }) && i == id && s == stats
}

/// The result that an event reports.
pub open spec fn result_of(r: Option<Event>) -> QueryResult {
    r->0->result
}

/// The number of a report.
pub open spec fn step_in(r: Option<Event>) -> ProgressStep {
    r->0->step
}

/// Whether a list of peers with their addresses is what a query found: the results, in their
/// order, each with the addresses that were learned of it.
pub open spec fn lists_results(list: Seq<PeerInfo>, peers: QueryPeers) -> bool {
    &&& list.len() == peers.results().len()
    &&& forall|i: int|
        0 <= i < list.len() ==> (#[trigger] list[i]).peer_id == peers.results()[i]
            && list[i].addrs@ == (if peers.addresses@.contains_key(peers.results()[i]) {
            peers.addresses@[peers.results()[i]]@
        } else {
            Seq::empty()
        })
}

/// Whether two sets of statistics are those of two phases of one query, and a third is that of
/// the whole: the counters are added up as far as they go, and the whole lasts from the first
/// start to the last end.
pub open spec fn adds_up(a: QueryStats, b: QueryStats, whole: QueryStats) -> bool {
    &&& a.requests + b.requests <= u32::MAX ==> whole.requests == a.requests + b.requests
    &&& a.requests + b.requests > u32::MAX ==> whole.requests == u32::MAX
    &&& a.success + b.success <= u32::MAX ==> whole.success == a.success + b.success
    &&& a.success + b.success > u32::MAX ==> whole.success == u32::MAX
    &&& a.failure + b.failure <= u32::MAX ==> whole.failure == a.failure + b.failure
    &&& a.failure + b.failure > u32::MAX ==> whole.failure == u32::MAX
    &&& whole.start == a.start || whole.start == b.start
    &&& a.start matches Some(t) ==> (whole.start matches Some(w) && w.nanos <= t.nanos)
    &&& b.start matches Some(t) ==> (whole.start matches Some(w) && w.nanos <= t.nanos)
    &&& whole.end == a.end || whole.end == b.end
    &&& a.end matches Some(t) ==> (whole.end matches Some(w) && w.nanos >= t.nanos)
    &&& b.end matches Some(t) ==> (whole.end matches Some(w) && w.nanos >= t.nanos)
}

/// When the first phase of an announcement, or of the storing of a record, ends, the second goes
/// on with every peer that was found and no other, none of which was contacted. What is announced
/// or stored stays the same: the local node with all its external addresses, or the record.
pub proof fn law_second_phase_has_every_found_peer<S>(
    before: Behaviour<S>,
    after: Behaviour<S>,
    q: Query,
    fresh: Seq<PeerId>,
    r: Option<Event>,
    p: PeerId,
    other: QueryId,
)
    requires
        before.wf(),
        q.wf(),
        query_done(before, after, q, fresh, r),
        match q.info {
            QueryInfo::AddProvider { phase, .. } => phase is GetClosestPeers,
            QueryInfo::PutRecord { phase, .. } => phase is GetClosestPeers,
            _ => false,
        },
    ensures
        r is None,
        after.queries@.contains_key(q.id),
        ({
            let q2 = after.queries@[q.id];
            &&& q2.id == q.id
            &&& q2.peers.kind is Fixed
            &&& !q2.peers.finished
            &&& q2.pending_rpcs@.len() == 0
            &&& is_candidate(q2.peers, p) <==> q.peers.results().contains(p)
            &&& is_candidate(q2.peers, p) ==> is_in(q2.peers, p, PeerState::NotContacted)
            &&& match (q.info, q2.info) {
                (
                    QueryInfo::AddProvider { key, context, .. },
                    QueryInfo::AddProvider { key: k, context: c, phase },
                ) => {
                    &&& k == key
                    &&& c == context
                    &&& phase matches AddProviderPhase::AddProvider {
                        provider_id,
                        external_addresses,
                        get_closest_peers_stats,
                    } && provider_id == before.local_peer_id && external_addresses@
                        == external_addrs(before.external_addresses) && get_closest_peers_stats
                        == q.stats
                },
                (
                    QueryInfo::PutRecord { record, quorum, context, .. },
                    QueryInfo::PutRecord { record: rec, quorum: n, context: c, phase },
                ) => {
                    &&& rec == record
                    &&& n == quorum
                    &&& c == context
                    &&& phase matches PutRecordPhase::PutRecord {
                        success,
                        get_closest_peers_stats,
                    } && success@.len() == 0 && get_closest_peers_stats == q.stats
                },
                _ => false,
            }
        }),
        other != q.id ==> {
            &&& after.queries@.contains_key(other) <==> before.queries@.contains_key(other)
            &&& after.queries@.contains_key(other) ==> after.queries@[other]
                == before.queries@[other]
        },
        after == (Behaviour { queries: after.queries, ..before }),
{
    let q2 = query_in(after.queries, q.id);
    lemma_others_stay(before.queries, after.queries, q.id, q2, other);
    lemma_new_query(q2, q.id, q2.info, PeersKind::Fixed, q.peers.results(), p);
}

/// The end of a search for the closest peers is reported with everything that it has found, also
/// if it has taken too long, and it leaves the behaviour as it is.
pub proof fn law_search_reports_what_it_found<S>(
    before: Behaviour<S>,
    after: Behaviour<S>,
    late: Behaviour<S>,
    q: Query,
    fresh: Seq<PeerId>,
    r: Option<Event>,
    timeout: Option<Event>,
)
    requires
        q.wf(),
        q.info is GetClosestPeers,
        query_done(before, after, q, fresh, r),
        query_timed_out(before, late, q, timeout),
    ensures
        after == before,
        late == before,
        reports_on(r, q.id, q.stats) && step_in(r).last,
        result_of(r) matches QueryResult::GetClosestPeers(Ok(ok)) && ok.key
            == q.info->GetClosestPeers_key && lists_results(ok.peers@, q.peers),
        reports_on(timeout, q.id, q.stats) && step_in(timeout).last,
        result_of(timeout) matches QueryResult::GetClosestPeers(
            Err(GetClosestPeersError::Timeout { key, peers }),
        ) && key == q.info->GetClosestPeers_key && lists_results(peers@, q.peers),
{
    let ok = match result_of(r) {
        QueryResult::GetClosestPeers(Ok(ok)) => ok.peers@,
        _ => Seq::empty(),
    };
    let found = match result_of(timeout) {
        QueryResult::GetClosestPeers(Err(GetClosestPeersError::Timeout { peers, .. })) => peers@,
        _ => Seq::empty(),
    };
    lemma_lists_results(ok, q.peers);
    lemma_lists_results(found, q.peers);
}

/// A list with the views of the results lists the results.
proof fn lemma_lists_results(list: Seq<PeerInfo>, peers: QueryPeers)
    requires
        peers.wf(),
        infos_view(list) == peers.result_infos(),
    ensures
        lists_results(list, peers),
{
    assert(list.len() == peers.result_infos().len());
    assert forall|i: int| 0 <= i < list.len() implies (#[trigger] list[i]).peer_id
        == peers.results()[i] && list[i].addrs@ == (if peers.addresses@.contains_key(
        peers.results()[i],
    ) {
        peers.addresses@[peers.results()[i]]@
    } else {
        Seq::empty()
    }) by {
        law_results_come_with_addresses(peers, i);
        assert(infos_view(list)[i] == peers.result_infos()[i]);
    }
}

/// The end of a search for providers, or for a record, is reported with the peers that are
/// closest to the key; that of a search that has found the record, with the peers at which it can
/// be cached. One that takes too long says so. None of them changes the behaviour.
pub proof fn law_lookup_reports_its_end<S>(
    before: Behaviour<S>,
    after: Behaviour<S>,
    late: Behaviour<S>,
    q: Query,
    fresh: Seq<PeerId>,
    r: Option<Event>,
    timeout: Option<Event>,
)
    requires
        q.info is GetProviders || q.info is GetRecord,
        query_done(before, after, q, fresh, r),
        query_timed_out(before, late, q, timeout),
    ensures
        after == before,
        late == before,
        reports_on(r, q.id, q.stats) && step_in(r).last,
        reports_on(timeout, q.id, q.stats) && step_in(timeout).last,
        match q.info {
            QueryInfo::GetProviders { key, step, .. } => {
                &&& step_in(r).count@ == step.count@
                &&& step_in(timeout).count@ == step.count@
                &&& result_of(r) matches QueryResult::GetProviders(
                    Ok(GetProvidersOk::FinishedWithNoAdditionalRecord { closest_peers }),
                ) && closest_peers@ == q.peers.results()
                &&& result_of(timeout) matches QueryResult::GetProviders(
                    Err(GetProvidersError::Timeout { key: k, closest_peers }),
                ) && k == key && closest_peers@ == q.peers.results()
            },
            QueryInfo::GetRecord { key, step, found_a_record, cache_candidates } => {
                &&& step_in(r).count@ == step.count@
                &&& step_in(timeout).count@ == step.count@
                &&& found_a_record ==> (result_of(r) matches QueryResult::GetRecord(
                    Ok(GetRecordOk::FinishedWithNoAdditionalRecord { cache_candidates: c }),
                ) && c@ == cache_candidates@)
                &&& !found_a_record ==> (result_of(r) matches QueryResult::GetRecord(
                    Err(GetRecordError::NotFound { key: k, closest_peers }),
                ) && k == key && closest_peers@ == q.peers.results())
                &&& result_of(timeout) matches QueryResult::GetRecord(
                    Err(GetRecordError::Timeout { key: k }),
                ) && k == key
            },
            _ => false,
        },
{
}

/// The end of the second phase of an announcement is a success, whoever was reached: the
/// announcement is not answered. It is reported as what it was made for, with the statistics of
/// both phases; and one that takes too long, as a failure.
pub proof fn law_announcement_reports_its_end<S>(
    before: Behaviour<S>,
    after: Behaviour<S>,
    late: Behaviour<S>,
    q: Query,
    fresh: Seq<PeerId>,
    r: Option<Event>,
    timeout: Option<Event>,
)
    requires
        q.info matches QueryInfo::AddProvider { phase, .. } && phase is AddProvider,
        query_done(before, after, q, fresh, r),
        query_timed_out(before, late, q, timeout),
    ensures
        after == before,
        late == before,
        r matches Some(Event::OutboundQueryProgressed { id, stats, step, .. }) && id == q.id
            && step.last && step.count@ == 1 && adds_up(
            q.info->AddProvider_phase->get_closest_peers_stats,
            q.stats,
            stats,
        ),
        reports_on(timeout, q.id, q.stats),
        step_in(timeout).last,
        step_in(timeout).count@ == 1,
        match q.info->AddProvider_context {
            AddProviderContext::Publish => {
                &&& result_of(r) matches QueryResult::StartProviding(Ok(ok)) && ok.key
                    == q.info->AddProvider_key
                &&& result_of(timeout) matches QueryResult::StartProviding(
                    Err(AddProviderError::Timeout { key }),
                ) && key == q.info->AddProvider_key
            },
            AddProviderContext::Republish => {
                &&& result_of(r) matches QueryResult::RepublishProvider(Ok(ok)) && ok.key
                    == q.info->AddProvider_key
                &&& result_of(timeout) matches QueryResult::RepublishProvider(
                    Err(AddProviderError::Timeout { key }),
                ) && key == q.info->AddProvider_key
            },
        },
{
}

/// What the storing of a record comes to.
pub open spec fn put_outcome(result: QueryResult, context: PutRecordContext) -> PutRecordResult {
    match context {
        PutRecordContext::Republish => result->RepublishRecord_0,
        _ => result->PutRecord_0,
    }
}

/// Whether a result is that of the storing of a record, by what it was stored for.
pub open spec fn is_put_result(result: QueryResult, context: PutRecordContext) -> bool {
    match context {
        PutRecordContext::Publish => result is PutRecord,
        PutRecordContext::Custom => result is PutRecord,
        PutRecordContext::Republish => result is RepublishRecord,
        PutRecordContext::Replicate => false,
    }
}

/// The end of the storing of a record is reported as a success if as many peers as the quorum
/// asks for have stored it, and otherwise as a failure that names those that have. That of a
/// replication is not reported. One that takes too long names them too.
pub proof fn law_put_reports_its_end<S>(
    before: Behaviour<S>,
    after: Behaviour<S>,
    late: Behaviour<S>,
    q: Query,
    fresh: Seq<PeerId>,
    r: Option<Event>,
    timeout: Option<Event>,
)
    requires
        q.info matches QueryInfo::PutRecord { phase, .. } && phase is PutRecord,
        query_done(before, after, q, fresh, r),
        query_timed_out(before, late, q, timeout),
    ensures
        after == before,
        late == before,
        ({
            let context = q.info->PutRecord_context;
            let key = q.info->PutRecord_record.key;
            let quorum = q.info->PutRecord_quorum;
            let stored = q.info->PutRecord_phase->success;
            if context == PutRecordContext::Replicate {
                r is None && timeout is None
            } else {
                &&& r matches Some(Event::OutboundQueryProgressed { id, result, stats, step }) && {
                    &&& id == q.id
                    &&& step.last && step.count@ == 1
                    &&& adds_up(
                        q.info->PutRecord_phase->get_closest_peers_stats,
                        q.stats,
                        stats,
                    )
                    &&& is_put_result(result, context)
                    &&& stored@.len() >= quorum@ ==> (put_outcome(result, context) matches Ok(ok)
                        && ok.key == key)
                    &&& stored@.len() < quorum@ ==> (put_outcome(result, context) matches Err(
                        PutRecordError::QuorumFailed { key: k, success, quorum: n },
                    ) && k == key && success@ == stored@ && n == quorum)
                }
                &&& timeout matches Some(
                    Event::OutboundQueryProgressed { id, result, step, stats },
                ) && {
                    &&& id == q.id && stats == q.stats
                    &&& step.last && step.count@ == 1
                    &&& is_put_result(result, context)
                    &&& put_outcome(result, context) matches Err(
                        PutRecordError::Timeout { key: k, success, quorum: n },
                    ) && k == key && success@ == stored@ && n == quorum
                }
            }
        }),
{
}

/// An announcement, or the storing of a record, that takes too long while it still looks for the
/// closest peers fails, and is not continued.
pub proof fn law_first_phase_times_out<S>(
    before: Behaviour<S>,
    late: Behaviour<S>,
    q: Query,
    timeout: Option<Event>,
)
    requires
        query_timed_out(before, late, q, timeout),
        match q.info {
            QueryInfo::AddProvider { phase, .. } => phase is GetClosestPeers,
            QueryInfo::PutRecord { phase, .. } => phase is GetClosestPeers,
            _ => false,
        },
    ensures
        late == before,
        match q.info {
            QueryInfo::AddProvider { key, context, .. } => {
                &&& reports_on(timeout, q.id, q.stats)
                &&& step_in(timeout).last && step_in(timeout).count@ == 1
                &&& context == AddProviderContext::Publish ==> (result_of(
                    timeout,
                ) matches QueryResult::StartProviding(Err(AddProviderError::Timeout { key: k }))
                    && k == key)
                &&& context == AddProviderContext::Republish ==> (result_of(
                    timeout,
                ) matches QueryResult::RepublishProvider(Err(AddProviderError::Timeout { key: k }))
                    && k == key)
            },
            QueryInfo::PutRecord { record, quorum, context, .. } => if context
                == PutRecordContext::Replicate {
                timeout is None
            } else {
                &&& reports_on(timeout, q.id, q.stats)
                &&& step_in(timeout).last && step_in(timeout).count@ == 1
                &&& is_put_result(result_of(timeout), context)
                &&& put_outcome(result_of(timeout), context) matches Err(
                    PutRecordError::Timeout { key, success, quorum: n },
                ) && key == record.key && success@.len() == 0 && n == quorum
            },
            _ => false,
        },
{
}

/// A bootstrap goes on as long as there are peers to be looked for, one after the other: the next
/// lookup is for the first of them, from the peers of the routing table closest to it, and the
/// others are looked for later. Each lookup is reported with the number of those that are left.
/// When none is left, the bootstrap is over.
pub proof fn law_bootstrap_looks_for_each<S>(
    before: Behaviour<S>,
    after: Behaviour<S>,
    q: Query,
    fresh: Seq<PeerId>,
    r: Option<Event>,
)
    requires
        before.wf(),
        q.info is Bootstrap,
        query_done(before, after, q, fresh, r),
        fresh.len() < 256,
        q.wf(),
    ensures
        ({
            let todo = match q.info->Bootstrap_remaining {
                Some(list) => list@,
                None => fresh,
            };
            &&& reports_on(r, q.id, q.stats)
            &&& step_in(r).count@ == q.info->Bootstrap_step.count@
            &&& step_in(r).last <==> todo.len() == 0
            &&& result_of(r) matches QueryResult::Bootstrap(Ok(ok)) && ok.peer
                == q.info->Bootstrap_peer && ok.num_remaining == todo.len()
            &&& looks_for_next(before, after, q, todo)
        }),
{
    if after.queries != before.queries {
        lemma_others_stay(
            before.queries,
            after.queries,
            q.id,
            query_in(after.queries, q.id),
            q.id,
        );
    }
    lemma_next_lookup(before, after, q, fresh, r);
}

/// A lookup of a bootstrap that takes too long is reported, and the bootstrap goes on with the
/// next one if one is left. If the first one does, nothing more is known to be looked for.
pub proof fn law_bootstrap_survives_timeout<S>(
    before: Behaviour<S>,
    after: Behaviour<S>,
    q: Query,
    r: Option<Event>,
)
    requires
        before.wf(),
        q.info is Bootstrap,
        query_timed_out(before, after, q, r),
        q.wf(),
    ensures
        ({
            let todo = match q.info->Bootstrap_remaining {
                Some(list) => list@,
                None => Seq::empty(),
            };
            &&& reports_on(r, q.id, q.stats)
            &&& step_in(r).count@ == q.info->Bootstrap_step.count@
            &&& step_in(r).last <==> todo.len() == 0
            &&& result_of(r) matches QueryResult::Bootstrap(
                Err(BootstrapError::Timeout { peer, num_remaining }),
            ) && peer == q.info->Bootstrap_peer && (num_remaining is None
                <==> q.info->Bootstrap_remaining is None) && (num_remaining matches Some(n)
                ==> todo.len() <= u32::MAX ==> n == (if todo.len() > 0 {
                todo.len() - 1
            } else {
                0
            }))
            &&& looks_for_next(before, after, q, todo)
        }),
{
    let todo = match q.info->Bootstrap_remaining {
        Some(list) => list@,
        None => Seq::empty(),
    };
    if todo.len() > 0 {
        assert(todo =~= seq![todo[0]] + todo.drop_first());
        lemma_others_stay(
            before.queries,
            after.queries,
            q.id,
            query_in(after.queries, q.id),
            q.id,
        );
    }
}

/// What the end of a lookup leads to.
proof fn lemma_next_lookup<S>(
    before: Behaviour<S>,
    after: Behaviour<S>,
    q: Query,
    fresh: Seq<PeerId>,
    r: Option<Event>,
)
    requires
        before.wf(),
        q.info is Bootstrap,
        query_done(before, after, q, fresh, r),
    ensures
        looks_for_next(
            before,
            after,
            q,
            match q.info->Bootstrap_remaining {
                Some(list) => list@,
                None => fresh,
            },
        ),
{
    let todo = match q.info->Bootstrap_remaining {
        Some(list) => list@,
        None => fresh,
    };
    if todo.len() > 0 {
        assert(todo =~= seq![todo[0]] + todo.drop_first());
        lemma_others_stay(
            before.queries,
            after.queries,
            q.id,
            query_in(after.queries, q.id),
            q.id,
        );
    }
}

/// Whether a bootstrap goes on with the first of some peers and keeps the others, or is over if
/// there is none.
pub open spec fn looks_for_next<S>(
    before: Behaviour<S>,
    after: Behaviour<S>,
    q: Query,
    todo: Seq<PeerId>,
) -> bool {
    if todo.len() > 0 {
        let q2 = after.queries@[q.id];
        &&& after.queries@.contains_key(q.id)
        &&& q2.info matches QueryInfo::Bootstrap { peer, remaining: Some(rest), step } && peer
            == todo[0] && todo == seq![peer] + rest@ && step.count@
            == q.info->Bootstrap_step.count@ + 1 && !step.last
        &&& q2.peers.kind matches PeersKind::Closest { target, num_results } && target
            == key_of_peer(todo[0]) && num_results == before.queries.config.replication_factor
        &&& is_new(
            q2,
            q.id,
            q2.info,
            q2.peers.kind,
            seeds_of(before.kbuckets@.closest_peers(key_of_peer(todo[0]))),
        )
        &&& after == (Behaviour { queries: after.queries, ..before })
    } else {
        &&& after.queries == before.queries
        &&& after.bootstrap_status.signals@ == before.bootstrap_status.signals@.push(
            Signal::Finished,
        )
        &&& after.queued_events == before.queued_events
    }
}

/// The buckets that are refreshed after the first lookup of a bootstrap are those farther than
/// the closest one with a peer in it: all of them, up to the farthest there is, and one target for
/// each. A target falls into its bucket if any of the seventeen peers that were drawn for it does.
pub proof fn law_farther_buckets_are_refreshed(
    t: TableView,
    draws: Seq<Vec<PeerId>>,
    targets: Seq<PeerId>,
    closest: nat,
    i: int,
    k: int,
)
    requires
        t.wf(),
        are_targets(t, draws, targets),
        t.bucket_nodes(closest).len() > 0,
        closest < 256,
        forall|c: nat| c < closest ==> (#[trigger] t.bucket_nodes(c)).len() == 0,
    ensures
        targets.len() == 255 - closest,
        0 <= i < targets.len() ==> draws[i]@.len() == 17,
        0 <= i < targets.len() && 0 <= k < draws[i]@.len() ==> {
            &&& draws[i]@.contains(targets[i])
            &&& falls(t, draws[i]@[k], closest + 1 + i) ==> falls(t, targets[i], closest + 1 + i)
        },
{
    assert(t.first_bucket(closest));
    let b = choose|b: nat| t.first_bucket(b);
    assert(t.first_bucket(b));
    if b < closest {
        assert(t.bucket_nodes(b).len() == 0);
    } else if closest < b {
        assert(t.bucket_nodes(closest).len() == 0);
    }
    if 0 <= i < targets.len() && 0 <= k < draws[i]@.len() {
        let n = refreshed_bucket(t, i);
        lemma_picked(t.local_key(), draws[i]@, n);
        let local = t.local_key();
        law_distance_is_a_metric(local, key_of_peer(draws[i]@[k]), local);
        law_distance_is_a_metric(local, key_of_peer(targets[i]), local);
        if falls(t, draws[i]@[k], closest + 1 + i) {
            law_pick_falls_into_bucket(t.local_key(), draws[i]@, n, k);
        }
    }
}

/// Whether a peer falls into a bucket: the highest bit in which its key differs from the local
/// one has the position of the bucket.
pub open spec fn falls(t: TableView, p: PeerId, b: int) -> bool {
    let d = key_of_peer(t.local).spec_distance(key_of_peer(p));
    key_of_peer(p) != key_of_peer(t.local) && d.spec_ilog2() == b
}

/// The peer that is picked is one of those that were drawn.
proof fn lemma_picked(local_key: KeyBytes, draws: Seq<PeerId>, b: u32)
    requires
        draws.len() > 0,
    ensures
        draws.contains(picked(local_key, draws, b)),
    decreases draws.len(),
{
    if draws.len() <= 1 || picked(local_key, draws, b) == draws[0] {
        assert(draws[0] == picked(local_key, draws, b));
    } else {
        let rest = draws.drop_first();
        lemma_picked(local_key, rest, b);
        let i = rest.index_of(picked(local_key, rest, b));
        assert(draws[i + 1] == rest[i]);
    }
}

/// The statistics of two phases add up.
pub proof fn law_stats_add_up(a: QueryStats, b: QueryStats)
    ensures
        adds_up(a, b, a.merged(b)),
{
}

} // verus!
