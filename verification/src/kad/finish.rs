//! What queries ask of peers, and how they end.

use libp2p_identity::PeerId;
use vstd::prelude::*;

use crate::kad::behaviour::told;
use crate::kad::behaviour::Behaviour;
use crate::kad::bootstrap::Signal;
use crate::kad::events::AddProviderContext;
use crate::kad::events::AddProviderError;
use crate::kad::events::AddProviderOk;
use crate::kad::events::AddProviderPhase;
use crate::kad::events::AddProviderResult;
use crate::kad::events::BootstrapError;
use crate::kad::events::BootstrapOk;
use crate::kad::events::Event;
use crate::kad::events::GetClosestPeersError;
use crate::kad::events::GetClosestPeersOk;
use crate::kad::events::GetProvidersError;
use crate::kad::events::GetProvidersOk;
use crate::kad::events::GetRecordError;
use crate::kad::events::GetRecordOk;
use crate::kad::events::ProgressStep;
use crate::kad::events::PutRecordContext;
use crate::kad::events::PutRecordError;
use crate::kad::events::PutRecordOk;
use crate::kad::events::PutRecordPhase;
use crate::kad::events::PutRecordResult;
use crate::kad::events::QueryInfo;
use crate::kad::events::QueryResult;
use crate::kad::events::QueryStats;
use crate::kad::kbucket::in_bucket;
use crate::kad::kbucket::TableView;
use crate::kad::key::key_of_peer;
use crate::kad::key::KeyBytes;
use crate::kad::lookups::query_in;
use crate::kad::lookups::reported;
use crate::kad::lookups::reports;
use crate::kad::protocol::ConnectionType;
use crate::kad::protocol::HandlerIn;
use crate::kad::protocol::KadPeer;
use crate::kad::protocol::KadPeerView;
use crate::kad::protocol::QueryId;
use crate::kad::query::closest_kind;
use crate::kad::query::infos_view;
use crate::kad::query::pool_continued;
use crate::kad::query::seeds_of;
use crate::kad::query::PeersKind;
use crate::kad::query::Query;
use crate::kad::record::Key;
use crate::net::external_addrs;
use crate::net::external_list;
use crate::net::peer_id_bytes;
use crate::net::peer_to_bytes;
use crate::net::random_peer;
use crate::nonzero::NonZeroUsize;

verus! {

/// Whether a handler is told to ask for the peers closest to a key.
pub open spec fn asks_for_nodes(event: HandlerIn, id: QueryId, bytes: Seq<u8>) -> bool {
    event matches HandlerIn::FindNodeReq { key, query_id } && key@ == bytes && query_id == id
}

/// Whether a handler is told to make the request of a query.
pub open spec fn is_request(info: QueryInfo, id: QueryId, event: HandlerIn) -> bool {
    match info {
        QueryInfo::Bootstrap { peer, .. } => asks_for_nodes(event, id, peer_id_bytes(peer)),
        QueryInfo::GetClosestPeers { key, .. } => asks_for_nodes(event, id, key@),
        QueryInfo::GetProviders { key, .. } => event == (HandlerIn::GetProvidersReq {
            key,
            query_id: id,
        }),
        QueryInfo::AddProvider { key, phase, .. } => match phase {
            AddProviderPhase::GetClosestPeers => asks_for_nodes(event, id, key@),
            AddProviderPhase::AddProvider { provider_id, external_addresses, .. } => event
                matches HandlerIn::AddProvider { key: k, provider, query_id } && k == key
                && query_id == id && provider@ == (KadPeerView {
                peer: provider_id,
                addrs: external_addresses@,
                connection: ConnectionType::Connected,
            }),
        },
        QueryInfo::GetRecord { key, .. } => event == (HandlerIn::GetRecord { key, query_id: id }),
        QueryInfo::PutRecord { record, phase, .. } => match phase {
            PutRecordPhase::GetClosestPeers => asks_for_nodes(event, id, record.key@),
            PutRecordPhase::PutRecord { .. } => event == (HandlerIn::PutRecord {
                record,
                query_id: id,
            }),
        },
    }
}

impl QueryInfo {
    /// What a handler is told to ask in the context of a query.
    pub fn to_request(&self, query_id: QueryId) -> (r: HandlerIn)
        ensures
            is_request(*self, query_id, r),
    {
        match self {
            QueryInfo::Bootstrap { peer, .. } => HandlerIn::FindNodeReq {
                key: peer_to_bytes(peer),
                query_id,
            },
            QueryInfo::GetClosestPeers { key, .. } => {
                let bytes = key.clone();
                assert(bytes@ =~= key@);
                HandlerIn::FindNodeReq { key: bytes, query_id }
            },
            QueryInfo::GetProviders { key, .. } => HandlerIn::GetProvidersReq {
                key: key.clone(),
                query_id,
            },
            QueryInfo::AddProvider { key, phase, .. } => match phase {
                AddProviderPhase::GetClosestPeers => HandlerIn::FindNodeReq {
                    key: key.to_vec(),
                    query_id,
                },
                AddProviderPhase::AddProvider { provider_id, external_addresses, .. } => {
                    let multiaddrs = external_addresses.clone();
                    assert(multiaddrs@ =~= external_addresses@);
                    HandlerIn::AddProvider {
                        key: key.clone(),
                        provider: KadPeer {
                            node_id: *provider_id,
                            multiaddrs,
                            connection_ty: ConnectionType::Connected,
                        },
                        query_id,
                    }
                },
            },
            QueryInfo::GetRecord { key, .. } => HandlerIn::GetRecord { key: key.clone(), query_id },
            QueryInfo::PutRecord { record, phase, .. } => match phase {
                PutRecordPhase::GetClosestPeers => HandlerIn::FindNodeReq {
                    key: record.key.to_vec(),
                    query_id,
                },
                PutRecordPhase::PutRecord { .. } => HandlerIn::PutRecord {
                    record: record.clone(),
                    query_id,
                },
            },
        }
    }
}

/// The number of buckets to be refreshed: those farther than the first one with a peer in it.
pub open spec fn buckets_to_refresh(t: TableView) -> int {
    if exists|b: nat| t.first_bucket(b) {
        255 - (choose|b: nat| t.first_bucket(b))
    } else {
        0
    }
}

/// The bucket that is refreshed as the one with number `i`, from the closest to the farthest.
pub open spec fn refreshed_bucket(t: TableView, i: int) -> u32 {
    (256 - buckets_to_refresh(t) + i) as u32
}

/// Whether there is one target for each bucket to be refreshed, each picked from its own draws.
pub open spec fn are_targets(t: TableView, draws: Seq<Vec<PeerId>>, targets: Seq<PeerId>) -> bool {
    &&& draws.len() == buckets_to_refresh(t)
    &&& targets.len() == buckets_to_refresh(t)
    &&& forall|i: int|
        0 <= i < draws.len() ==> (#[trigger] draws[i])@.len() == REFRESH_DRAWS && targets[i]
            == picked(t.local_key(), draws[i]@, refreshed_bucket(t, i))
}

/// Whether the given peers may be looked for in order to refresh the buckets.
pub open spec fn refreshes(t: TableView, targets: Seq<PeerId>) -> bool {
    exists|draws: Seq<Vec<PeerId>>| are_targets(t, draws, targets)
}

/// Whether a query is the first lookup of a bootstrap, after which it is known which buckets
/// are to be refreshed.
pub open spec fn is_first_lookup(info: QueryInfo) -> bool {
    info matches QueryInfo::Bootstrap { remaining: None, .. }
}

/// The number of lookups that a bootstrap goes on with, if its first one leads to `fresh` more.
pub open spec fn lookups_left(info: QueryInfo, fresh: int) -> int {
    match info {
        QueryInfo::Bootstrap { remaining: Some(list), .. } => list@.len() as int,
        QueryInfo::Bootstrap { remaining: None, .. } => fresh,
        _ => 0,
    }
}

/// Whether a query goes on, with a search for the given peer.
pub open spec fn goes_on_closest<S>(
    before: Behaviour<S>,
    after: Behaviour<S>,
    id: QueryId,
    peer: PeerId,
) -> bool {
    let info = query_in(after.queries, id).info;
    &&& after == (Behaviour { queries: after.queries, ..before })
    &&& pool_continued(
        before.queries,
        after.queries,
        id,
        info,
        closest_kind(before.queries.config, key_of_peer(peer), info),
        seeds_of(before.kbuckets@.closest_peers(key_of_peer(peer))),
    )
}

/// Whether a query goes on, with given peers.
pub open spec fn goes_on_fixed<S>(
    before: Behaviour<S>,
    after: Behaviour<S>,
    id: QueryId,
    peers: Seq<PeerId>,
) -> bool {
    &&& after == (Behaviour { queries: after.queries, ..before })
    &&& pool_continued(
        before.queries,
        after.queries,
        id,
        query_in(after.queries, id).info,
        PeersKind::Fixed,
        peers,
    )
}

/// Whether a bootstrap goes on with the next of the remaining peers, or is over if there is
/// none.
pub open spec fn bootstrap_goes_on<S>(
    before: Behaviour<S>,
    after: Behaviour<S>,
    id: QueryId,
    remaining: Seq<PeerId>,
    step: ProgressStep,
) -> bool {
    if remaining.len() > 0 {
        &&& goes_on_closest(before, after, id, remaining[0])
        &&& query_in(after.queries, id).info matches QueryInfo::Bootstrap {
            peer,
            remaining: rest,
            step: next,
        } && peer == remaining[0] && (rest matches Some(list) && list@ == remaining.drop_first())
            && step.followed_by(next)
    } else {
        &&& after == (Behaviour { bootstrap_status: after.bootstrap_status, ..before })
        &&& before.bootstrap_status.signaled(after.bootstrap_status, Signal::Finished)
    }
}

/// Whether an event reports a result of a query.
pub open spec fn is_report(
    r: Option<Event>,
    id: QueryId,
    result: QueryResult,
    stats: QueryStats,
    count: int,
    last: bool,
) -> bool {
    r matches Some(e) && reports(told(e), id, result, stats, count, last)
}

/// What an event reports.
pub open spec fn result_in(r: Option<Event>) -> QueryResult {
    reported(told(r->0))
}

/// The result of an announcement, by what it was made for.
pub open spec fn announced(context: AddProviderContext, result: AddProviderResult) -> QueryResult {
    match context {
        AddProviderContext::Publish => QueryResult::StartProviding(result),
        AddProviderContext::Republish => QueryResult::RepublishProvider(result),
    }
}

/// The result of the storing of a record, by what it was stored for. That of a replication is
/// not reported.
pub open spec fn stored(context: PutRecordContext, result: PutRecordResult) -> Option<QueryResult> {
    match context {
        PutRecordContext::Publish => Some(QueryResult::PutRecord(result)),
        PutRecordContext::Custom => Some(QueryResult::PutRecord(result)),
        PutRecordContext::Republish => Some(QueryResult::RepublishRecord(result)),
        PutRecordContext::Replicate => None,
    }
}

/// The result of the storing of a record: a success if enough peers have stored it.
pub open spec fn put_result(key: Key, success: Vec<PeerId>, quorum: NonZeroUsize) -> PutRecordResult {
    if success@.len() >= quorum@ {
        Ok(PutRecordOk { key })
    } else {
        Err(PutRecordError::QuorumFailed { key, success, quorum })
    }
}

/// What the end of a query changes, and what is reported. If it is the first lookup of a
/// bootstrap, the peers in `fresh` are looked for next.
pub open spec fn query_done<S>(
    before: Behaviour<S>,
    after: Behaviour<S>,
    q: Query,
    fresh: Seq<PeerId>,
    r: Option<Event>,
) -> bool {
    match q.info {
        QueryInfo::Bootstrap { peer, remaining, step } => {
            let list = match remaining {
                Some(list) => list@,
                None => fresh,
            };
            &&& is_report(
                r,
                q.id,
                QueryResult::Bootstrap(Ok(BootstrapOk { peer, num_remaining: list.len() as u32 })),
                q.stats,
                step.count@ as int,
                list.len() == 0,
            )
            &&& bootstrap_goes_on(before, after, q.id, list, step)
        },
        QueryInfo::GetClosestPeers { key, step, .. } => {
            &&& after == before
            &&& is_report(r, q.id, result_in(r), q.stats, step.count@ as int, true)
            &&& result_in(r) matches QueryResult::GetClosestPeers(
                Ok(GetClosestPeersOk { key: k, peers }),
            ) && k == key && infos_view(peers@) == q.peers.result_infos()
        },
        QueryInfo::GetProviders { step, .. } => {
            &&& after == before
            &&& is_report(r, q.id, result_in(r), q.stats, step.count@ as int, true)
            &&& result_in(r) matches QueryResult::GetProviders(
                Ok(GetProvidersOk::FinishedWithNoAdditionalRecord { closest_peers }),
            ) && closest_peers@ == q.peers.results()
        },
        QueryInfo::AddProvider { key, phase, context } => match phase {
            AddProviderPhase::GetClosestPeers => {
                &&& r is None
                &&& goes_on_fixed(before, after, q.id, q.peers.results())
                &&& query_in(after.queries, q.id).info matches QueryInfo::AddProvider {
                    key: k,
                    phase: AddProviderPhase::AddProvider {
                        provider_id,
                        external_addresses,
                        get_closest_peers_stats,
                    },
                    context: c,
                } && k == key && c == context && provider_id == before.local_peer_id
                    && external_addresses@ == external_addrs(before.external_addresses)
                    && get_closest_peers_stats == q.stats
            },
            AddProviderPhase::AddProvider { get_closest_peers_stats, .. } => {
                &&& after == before
                &&& is_report(
                    r,
                    q.id,
                    announced(context, Ok(AddProviderOk { key })),
                    get_closest_peers_stats.merged(q.stats),
                    1,
                    true,
                )
            },
        },
        QueryInfo::GetRecord { key, step, found_a_record, cache_candidates } => {
            &&& after == before
            &&& is_report(r, q.id, result_in(r), q.stats, step.count@ as int, true)
            &&& if found_a_record {
                result_in(r) == QueryResult::GetRecord(
                    Ok(GetRecordOk::FinishedWithNoAdditionalRecord { cache_candidates }),
                )
            } else {
                result_in(r) matches QueryResult::GetRecord(
                    Err(GetRecordError::NotFound { key: k, closest_peers }),
                ) && k == key && closest_peers@ == q.peers.results()
            }
        },
        QueryInfo::PutRecord { record, quorum, phase, context } => match phase {
            PutRecordPhase::GetClosestPeers => {
                &&& r is None
                &&& goes_on_fixed(before, after, q.id, q.peers.results())
                &&& query_in(after.queries, q.id).info matches QueryInfo::PutRecord {
                    record: rec,
                    quorum: n,
                    phase: PutRecordPhase::PutRecord { success, get_closest_peers_stats },
                    context: c,
                } && rec == record && n == quorum && c == context && success@.len() == 0
                    && get_closest_peers_stats == q.stats
            },
            PutRecordPhase::PutRecord { success, get_closest_peers_stats } => {
                &&& after == before
                &&& match stored(context, put_result(record.key, success, quorum)) {
                    Some(result) => is_report(
                        r,
                        q.id,
                        result,
                        get_closest_peers_stats.merged(q.stats),
                        1,
                        true,
                    ),
                    None => r is None,
                }
            },
        },
    }
}

/// What the timeout of a query changes, and what is reported.
pub open spec fn query_timed_out<S>(
    before: Behaviour<S>,
    after: Behaviour<S>,
    q: Query,
    r: Option<Event>,
) -> bool {
    match q.info {
        QueryInfo::Bootstrap { peer, remaining, step } => {
            let list = match remaining {
                Some(list) => list@,
                None => Seq::empty(),
            };
            let left = if list.len() > 0 {
                list.len() - 1
            } else {
                0
            };
            &&& is_report(
                r,
                q.id,
                QueryResult::Bootstrap(
                    Err(
                        BootstrapError::Timeout {
                            peer,
                            num_remaining: if remaining is Some {
                                Some(left as u32)
                            } else {
                                None
                            },
                        },
                    ),
                ),
                q.stats,
                step.count@ as int,
                list.len() == 0,
            )
            &&& bootstrap_goes_on(before, after, q.id, list, step)
        },
        QueryInfo::AddProvider { key, context, .. } => {
            &&& after == before
            &&& is_report(
                r,
                q.id,
                announced(context, Err(AddProviderError::Timeout { key })),
                q.stats,
                1,
                true,
            )
        },
        QueryInfo::GetClosestPeers { key, step, .. } => {
            &&& after == before
            &&& is_report(r, q.id, result_in(r), q.stats, step.count@ as int, true)
            &&& result_in(r) matches QueryResult::GetClosestPeers(
                Err(GetClosestPeersError::Timeout { key: k, peers }),
            ) && k == key && infos_view(peers@) == q.peers.result_infos()
        },
        QueryInfo::PutRecord { record, quorum, phase, context } => {
            &&& after == before
            &&& if context == PutRecordContext::Replicate {
                r is None
            } else {
                &&& is_report(r, q.id, result_in(r), q.stats, 1, true)
                &&& exists|success: Vec<PeerId>|
                    stored(
                        context,
                        Err(PutRecordError::Timeout { key: record.key, success, quorum }),
                    ) == Some(result_in(r)) && #[trigger] success@ == (match phase {
                        PutRecordPhase::GetClosestPeers => Seq::empty(),
                        PutRecordPhase::PutRecord { success: list, .. } => list@,
                    })
            }
        },
        QueryInfo::GetRecord { key, step, .. } => {
            &&& after == before
            &&& is_report(
                r,
                q.id,
                QueryResult::GetRecord(Err(GetRecordError::Timeout { key })),
                q.stats,
                step.count@ as int,
                true,
            )
        },
        QueryInfo::GetProviders { key, step, .. } => {
            &&& after == before
            &&& is_report(r, q.id, result_in(r), q.stats, step.count@ as int, true)
            &&& result_in(r) matches QueryResult::GetProviders(
                Err(GetProvidersError::Timeout { key: k, closest_peers }),
            ) && k == key && closest_peers@ == q.peers.results()
        },
    }
}

/// The same report, as the last one.
fn last_step(step: ProgressStep) -> (r: ProgressStep)
    ensures
        r == step.as_last(),
{
    ProgressStep { count: step.count, last: true }
}

/// A report on a query.
fn report(id: QueryId, result: QueryResult, stats: QueryStats, step: ProgressStep) -> (r: Option<
    Event,
>)
    ensures
        is_report(r, id, result, stats, step.count@ as int, step.last),
        result_in(r) == result,
{
    Some(Event::OutboundQueryProgressed { id, result, stats, step })
}

/// Whether the distance between the local key and that of a peer lies in the bucket with
/// index `b`.
pub open spec fn spec_falls_into(local_key: KeyBytes, peer: PeerId, b: u32) -> bool {
    let d = local_key.spec_distance(key_of_peer(peer));
    !d.is_zero() && d.spec_ilog2() == b
}

/// Whether the distance between the local key and that of a peer lies in the bucket with
/// index `b`.
pub fn falls_into(local_key: &KeyBytes, peer: &PeerId, b: u32) -> (r: bool)
    ensures
        r == spec_falls_into(*local_key, *peer, b),
{
    match local_key.distance(&KeyBytes::from_peer(peer)).ilog2() {
        Some(i) => i == b,
        None => false,
    }
}

/// The first of some peers that falls into a bucket, or else the last of them.
pub open spec fn picked(local_key: KeyBytes, draws: Seq<PeerId>, b: u32) -> PeerId
    decreases draws.len(),
{
    if draws.len() <= 1 || spec_falls_into(local_key, draws[0], b) {
        draws[0]
    } else {
        picked(local_key, draws.drop_first(), b)
    }
}

/// Picks the first of some peers that falls into a bucket, or else the last of them.
pub fn pick_target(local_key: &KeyBytes, draws: &Vec<PeerId>, b: u32) -> (r: PeerId)
    requires
        draws@.len() > 0,
    ensures
        r == picked(*local_key, draws@, b),
{
    let last: usize = draws.len() - 1;
    let mut i: usize = 0;
    assert(draws@.skip(0) =~= draws@);
    while i < last
        invariant
            last == draws@.len() - 1,
            i <= last,
            picked(*local_key, draws@, b) == picked(*local_key, draws@.skip(i as int), b),
        decreases last - i,
    {
        assert(draws@.skip(i as int)[0] == draws@[i as int]);
        if falls_into(local_key, &draws[i], b) {
            return draws[i];
        }
        assert(draws@.skip(i as int).drop_first() =~= draws@.skip(i + 1));
        i = i + 1;
    }
    assert(draws@.skip(i as int)[0] == draws@[i as int]);
    draws[i]
}

/// If one of the peers falls into the bucket, the one that is picked does.
pub proof fn law_pick_falls_into_bucket(
    local_key: KeyBytes,
    draws: Seq<PeerId>,
    b: u32,
    i: int,
)
    requires
        0 <= i < draws.len(),
        spec_falls_into(local_key, draws[i], b),
    ensures
        spec_falls_into(local_key, picked(local_key, draws, b), b),
    decreases draws.len(),
{
    if draws.len() > 1 && !spec_falls_into(local_key, draws[0], b) {
        assert(draws.drop_first()[i - 1] == draws[i]);
        law_pick_falls_into_bucket(local_key, draws.drop_first(), b, i - 1);
    }
}

/// The number of peers that are drawn in order to find one that falls into a bucket.
pub const REFRESH_DRAWS: usize = 17;

/// Draws peers at random, from which one that falls into a bucket is to be picked.
fn draw_peers() -> (r: Vec<PeerId>)
    ensures
        r@.len() == REFRESH_DRAWS,
{
    let mut draws: Vec<PeerId> = Vec::new();
    while draws.len() < REFRESH_DRAWS
        invariant
            draws@.len() <= REFRESH_DRAWS,
        decreases REFRESH_DRAWS - draws@.len(),
    {
        draws.push(random_peer());
    }
    draws
}

/// Picks one peer for each of the buckets that are farther than the one with index `first`,
/// from the draws for that bucket.
pub fn pick_targets(local_key: &KeyBytes, first: u32, draws: &Vec<Vec<PeerId>>) -> (r: Vec<PeerId>)
    requires
        first + draws@.len() < 256,
        forall|i: int| 0 <= i < draws@.len() ==> (#[trigger] draws@[i])@.len() > 0,
    ensures
        r@.len() == draws@.len(),
        forall|i: int|
            0 <= i < draws@.len() ==> #[trigger] r@[i] == picked(
                *local_key,
                draws@[i]@,
                (first + 1 + i) as u32,
            ),
{
    let mut r: Vec<PeerId> = Vec::new();
    let n: usize = draws.len();
    let mut i: usize = 0;
    while i < n
        invariant
            n == draws@.len(),
            i <= n,
            r@.len() == i,
            first + draws@.len() < 256,
            forall|j: int| 0 <= j < draws@.len() ==> (#[trigger] draws@[j])@.len() > 0,
            forall|j: int|
                0 <= j < i ==> #[trigger] r@[j] == picked(
                    *local_key,
                    draws@[j]@,
                    (first + 1 + j) as u32,
                ),
        decreases n - i,
    {
        r.push(pick_target(local_key, &draws[i], first + 1 + i as u32));
        i = i + 1;
    }
    r
}

impl<TStore> Behaviour<TStore> {
    /// The peers to look for in order to refresh the buckets farther than the first one with
    /// a peer in it, one for each.
    fn refresh_targets(&self) -> (r: Vec<PeerId>)
        requires
            self.wf(),
        ensures
            refreshes(self.kbuckets@, r@),
            r@.len() == buckets_to_refresh(self.kbuckets@),
            r@.len() < 256,
    {
        let mut draws: Vec<Vec<PeerId>> = Vec::new();
        let ghost t = self.kbuckets@;
        match self.kbuckets.first_bucket() {
            Some(first) => {
                proof {
                    let b = choose|b: nat| t.first_bucket(b);
                    assert(t.first_bucket(first as nat));
                    assert(t.first_bucket(b));
                    if b < first {
                        assert(t.bucket_nodes(b).len() == 0);
                    } else if first < b {
                        assert(t.bucket_nodes(first as nat).len() == 0);
                    }
                }
                let mut b: u32 = first + 1;
                while b < 256
                    invariant
                        first < b <= 256,
                        draws@.len() == b - first - 1,
                        forall|i: int|
                            0 <= i < draws@.len() ==> (#[trigger] draws@[i])@.len()
                                == REFRESH_DRAWS,
                    decreases 256 - b,
                {
                    draws.push(draw_peers());
                    b = b + 1;
                }
                let r = pick_targets(&self.kbuckets.local_key, first, &draws);
                proof {
                    assert forall|i: int| 0 <= i < draws@.len() implies (#[trigger] draws@[i])@.len()
                        == REFRESH_DRAWS && r@[i] == picked(
                        t.local_key(),
                        draws@[i]@,
                        refreshed_bucket(t, i),
                    ) by {
                        assert(refreshed_bucket(t, i) == (first + 1 + i) as u32);
                        assert(r@[i] == picked(
                            self.kbuckets.local_key,
                            draws@[i]@,
                            (first + 1 + i) as u32,
                        ));
                    }
                    assert(are_targets(t, draws@, r@));
                }
                r
            },
            None => {
                let r: Vec<PeerId> = Vec::new();
                proof {
                    if exists|b: nat| t.first_bucket(b) {
                        let b = choose|b: nat| t.first_bucket(b);
                        t.nodes.lemma_filter_len(in_bucket(t.local_key(), b));
                    }
                    assert(are_targets(t, draws@, r@));
                }
                r
            },
        }
    }

    /// Lets a bootstrap go on, or ends it, and says whether it is over.
    fn continue_bootstrap(&mut self, id: QueryId, remaining: Vec<PeerId>, step: ProgressStep) -> (r:
        bool)
        requires
            old(self).wf(),
            remaining@.len() < 256,
            !step.last,
            remaining@.len() > 0 ==> step.can_go_on(),
        ensures
            final(self).wf(),
            bootstrap_goes_on(*old(self), *final(self), id, remaining@, step),
            r == (remaining@.len() == 0),
    {
        let mut remaining = remaining;
        if remaining.len() > 0 {
            let ghost list = remaining@;
            let peer = remaining.remove(0);
            assert(remaining@ =~= list.drop_first());
            let target = KeyBytes::from_peer(&peer);
            let info = QueryInfo::Bootstrap {
                peer,
                remaining: Some(remaining),
                step: step.next(),
            };
            let peers = self.kbuckets.closest_keys(&target);
            self.queries.continue_iter_closest(id, target, peers, info);
            false
        } else {
            self.bootstrap_status.on_finish();
            true
        }
    }

    /// Handles the end of a query.
    pub fn query_finished(&mut self, q: Query) -> (r: Option<Event>)
        requires
            old(self).wf(),
            q.wf(),
            lookups_left(q.info, buckets_to_refresh(old(self).kbuckets@)) > 0
                ==> q.info.can_go_on(),
        ensures
            final(self).wf(),
            exists|fresh: Seq<PeerId>|
                (is_first_lookup(q.info) ==> refreshes(old(self).kbuckets@, fresh))
                    && #[trigger] query_done(*old(self), *final(self), q, fresh, r),
    {
        let first_lookup = match &q.info {
            QueryInfo::Bootstrap { remaining: None, .. } => true,
            _ => false,
        };
        let fresh = if first_lookup {
            self.refresh_targets()
        } else {
            Vec::new()
        };
        self.query_finished_with(q, fresh)
    }

    /// As [`Behaviour::query_finished`], where the peers in `fresh` are to be looked for if the
    /// query is the first lookup of a bootstrap.
    pub fn query_finished_with(&mut self, q: Query, fresh: Vec<PeerId>) -> (r: Option<Event>)
        requires
            old(self).wf(),
            q.wf(),
            lookups_left(q.info, fresh@.len() as int) > 0 ==> q.info.can_go_on(),
            fresh@.len() < 256,
        ensures
            final(self).wf(),
            query_done(*old(self), *final(self), q, fresh@, r),
    {
        let Query { id, info, stats, peers, .. } = q;
        match info {
            QueryInfo::Bootstrap { peer, remaining, step } => {
                let remaining = match remaining {
                    Some(list) => list,
                    None => fresh,
                };
                let num_remaining: u32 = remaining.len() as u32;
                let over = self.continue_bootstrap(id, remaining, step);
                report(
                    id,
                    QueryResult::Bootstrap(Ok(BootstrapOk { peer, num_remaining })),
                    stats,
                    ProgressStep { count: step.count, last: over },
                )
            },
            QueryInfo::GetClosestPeers { key, step, .. } => report(
                id,
                QueryResult::GetClosestPeers(
                    Ok(GetClosestPeersOk { key, peers: peers.peer_infos() }),
                ),
                stats,
                last_step(step),
            ),
            QueryInfo::GetProviders { step, .. } => report(
                id,
                QueryResult::GetProviders(
                    Ok(
                        GetProvidersOk::FinishedWithNoAdditionalRecord {
                            closest_peers: peers.peer_ids(),
                        },
                    ),
                ),
                stats,
                last_step(step),
            ),
            QueryInfo::AddProvider { context, key, phase } => match phase {
                AddProviderPhase::GetClosestPeers => {
                    let info = QueryInfo::AddProvider {
                        context,
                        key,
                        phase: AddProviderPhase::AddProvider {
                            provider_id: self.local_peer_id,
                            external_addresses: external_list(&self.external_addresses),
                            get_closest_peers_stats: stats,
                        },
                    };
                    let found = peers.peer_ids();
                    self.queries.continue_fixed(id, &found, info);
                    None
                },
                AddProviderPhase::AddProvider { get_closest_peers_stats, .. } => {
                    let result = Ok(AddProviderOk { key });
                    report(
                        id,
                        match context {
                            AddProviderContext::Publish => QueryResult::StartProviding(result),
                            AddProviderContext::Republish => QueryResult::RepublishProvider(result),
                        },
                        get_closest_peers_stats.merge(stats),
                        ProgressStep::first_and_last(),
                    )
                },
            },
            QueryInfo::GetRecord { key, step, found_a_record, cache_candidates } => {
                let results = if found_a_record {
                    Ok(GetRecordOk::FinishedWithNoAdditionalRecord { cache_candidates })
                } else {
                    Err(GetRecordError::NotFound { key, closest_peers: peers.peer_ids() })
                };
                report(id, QueryResult::GetRecord(results), stats, last_step(step))
            },
            QueryInfo::PutRecord { context, record, quorum, phase } => match phase {
                PutRecordPhase::GetClosestPeers => {
                    let info = QueryInfo::PutRecord {
                        context,
                        record,
                        quorum,
                        phase: PutRecordPhase::PutRecord {
                            success: Vec::new(),
                            get_closest_peers_stats: stats,
                        },
                    };
                    let found = peers.peer_ids();
                    self.queries.continue_fixed(id, &found, info);
                    None
                },
                PutRecordPhase::PutRecord { success, get_closest_peers_stats } => {
                    let result = if success.len() >= quorum.get() {
                        Ok(PutRecordOk { key: record.key })
                    } else {
                        Err(PutRecordError::QuorumFailed { key: record.key, quorum, success })
                    };
                    let stats = get_closest_peers_stats.merge(stats);
                    match context {
                        PutRecordContext::Publish | PutRecordContext::Custom => report(
                            id,
                            QueryResult::PutRecord(result),
                            stats,
                            ProgressStep::first_and_last(),
                        ),
                        PutRecordContext::Republish => report(
                            id,
                            QueryResult::RepublishRecord(result),
                            stats,
                            ProgressStep::first_and_last(),
                        ),
                        PutRecordContext::Replicate => None,
                    }
                },
            },
        }
    }

    /// Handles a query that has been running for too long.
    pub fn query_timeout(&mut self, q: Query) -> (r: Option<Event>)
        requires
            old(self).wf(),
            q.wf(),
            lookups_left(q.info, 0) > 0 ==> q.info.can_go_on(),
        ensures
            final(self).wf(),
            query_timed_out(*old(self), *final(self), q, r),
    {
        let Query { id, info, stats, peers, .. } = q;
        match info {
            QueryInfo::Bootstrap { peer, remaining, step } => {
                let num_remaining = match &remaining {
                    Some(list) => {
                        let n: usize = list.len();
                        Some(
                            if n > 0 {
                                (n - 1) as u32
                            } else {
                                0
                            },
                        )
                    },
                    None => None,
                };
                let list = match remaining {
                    Some(list) => list,
                    None => Vec::new(),
                };
                assert(remaining is None ==> list@ =~= Seq::empty());
                let over = self.continue_bootstrap(id, list, step);
                report(
                    id,
                    QueryResult::Bootstrap(Err(BootstrapError::Timeout { peer, num_remaining })),
                    stats,
                    ProgressStep { count: step.count, last: over },
                )
            },
            QueryInfo::AddProvider { context, key, .. } => {
                let result = Err(AddProviderError::Timeout { key });
                report(
                    id,
                    match context {
                        AddProviderContext::Publish => QueryResult::StartProviding(result),
                        AddProviderContext::Republish => QueryResult::RepublishProvider(result),
                    },
                    stats,
                    ProgressStep::first_and_last(),
                )
            },
            QueryInfo::GetClosestPeers { key, step, .. } => report(
                id,
                QueryResult::GetClosestPeers(
                    Err(GetClosestPeersError::Timeout { key, peers: peers.peer_infos() }),
                ),
                stats,
                last_step(step),
            ),
            QueryInfo::PutRecord { record, quorum, context, phase } => {
                let success = match phase {
                    PutRecordPhase::GetClosestPeers => Vec::new(),
                    PutRecordPhase::PutRecord { success, .. } => success,
                };
                let ghost list = success;
                assert(list@ =~= (match phase {
                    PutRecordPhase::GetClosestPeers => Seq::empty(),
                    PutRecordPhase::PutRecord { success: s, .. } => s@,
                }));
                let err = Err(PutRecordError::Timeout { key: record.key, quorum, success });
                match context {
                    PutRecordContext::Publish | PutRecordContext::Custom => report(
                        id,
                        QueryResult::PutRecord(err),
                        stats,
                        ProgressStep::first_and_last(),
                    ),
                    PutRecordContext::Republish => report(
                        id,
                        QueryResult::RepublishRecord(err),
                        stats,
                        ProgressStep::first_and_last(),
                    ),
                    PutRecordContext::Replicate => None,
                }
            },
            QueryInfo::GetRecord { key, step, .. } => report(
                id,
                QueryResult::GetRecord(Err(GetRecordError::Timeout { key })),
                stats,
                last_step(step),
            ),
            QueryInfo::GetProviders { key, step, .. } => report(
                id,
                QueryResult::GetProviders(
                    Err(GetProvidersError::Timeout { key, closest_peers: peers.peer_ids() }),
                ),
                stats,
                last_step(step),
            ),
        }
    }
}

} // verus!
