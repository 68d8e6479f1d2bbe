//! Queries, and the pool of those that are running.
//!
//! A query knows its candidates, how far each of them is, and what it is about. Which
//! candidate is contacted next is decided elsewhere and handed in as a [`LookupStep`].

use libp2p_core::Multiaddr;
use libp2p_identity::PeerId;
use vstd::prelude::*;

use crate::assoc::entries_insert;
use crate::assoc::entries_remove;
use crate::assoc::has_key;
use crate::assoc::key_index;
use crate::assoc::keys_distinct;
use crate::assoc::lemma_entries_insert;
use crate::assoc::lemma_insert_get;
use crate::assoc::lemma_key_index;
use crate::assoc::Assoc;
use crate::kad::cache::sorted;
use crate::kad::config::QueryConfig;
use crate::kad::config::K_VALUE;
use crate::kad::events::one_more;
use crate::kad::events::PeerInfo;
use crate::kad::events::ProgressStep;
use crate::kad::events::PutRecordPhase;
use crate::kad::events::QueryInfo;
use crate::kad::events::QueryStats;
use crate::kad::key::KeyBytes;
use crate::kad::order::at_most;
use crate::kad::order::by_distance;
use crate::kad::order::sort_by_distance;
use crate::kad::protocol::HandlerIn;
use crate::kad::protocol::QueryId;
use crate::nonzero::NonZeroUsize;
use crate::time::Moment;

verus! {

/// How far a candidate is.
#[derive(Clone, Copy, Debug, PartialEq, Eq, Structural)]
pub enum PeerState {
    /// It has not been contacted.
    NotContacted,
    /// It has been contacted and has not answered.
    Waiting,
    /// It has answered.
    Succeeded,
    /// It could not be contacted, or has not answered properly.
    Failed,
}

/// Which peers a query contacts.
#[derive(Clone, Copy, Debug)]
pub enum PeersKind {
    /// Those closest to a key, among them those that are learned on the way.
    Closest {
        /// The key.
        target: KeyBytes,
        /// The number of peers to be found.
        num_results: NonZeroUsize,
    },
    /// Those that are given.
    Fixed,
}

/// The peers of a query.
#[derive(Debug)]
pub struct QueryPeers {
    /// Which peers are contacted.
    pub kind: PeersKind,
    /// The candidates, each with how far it is.
    pub candidates: Assoc<PeerId, PeerState>,
    /// The addresses that were learned on the way.
    pub addresses: Assoc<PeerId, Vec<Multiaddr>>,
    /// Whether the query is to end as soon as possible.
    pub finished: bool,
}

/// A query.
#[derive(Debug)]
pub struct Query {
    /// The number of the query.
    pub id: QueryId,
    /// What the query is about.
    pub info: QueryInfo,
    /// The statistics of the query.
    pub stats: QueryStats,
    /// The peers of the query.
    pub peers: QueryPeers,
    /// The requests that wait for a connection.
    pub pending_rpcs: Vec<(PeerId, HandlerIn)>,
}

/// The queries that are running.
#[derive(Debug)]
pub struct QueryPool {
    /// The number of the next query.
    pub next_id: usize,
    /// The configuration.
    pub config: QueryConfig,
    /// The queries.
    pub queries: Assoc<QueryId, Query>,
}

impl View for QueryPool {
    type V = Map<QueryId, Query>;

    open spec fn view(&self) -> Map<QueryId, Query> {
        self.queries@
    }
}

/// What is decided on the running queries.
#[derive(Clone, Copy, Debug)]
pub enum LookupStep {
    /// A candidate is to be contacted.
    Contact {
        /// The query.
        id: QueryId,
        /// The candidate.
        peer: PeerId,
    },
    /// A query has nothing left to do.
    Finished {
        /// The query.
        id: QueryId,
    },
    /// A query has been running for too long.
    TimedOut {
        /// The query.
        id: QueryId,
    },
    /// Every query waits for something.
    Idle,
}

/// What is to be done for the running queries.
#[derive(Debug)]
pub enum PoolState {
    /// A query is over, and no longer in the pool.
    Finished(Query),
    /// A query has been running for too long, and is no longer in the pool.
    Timeout(Query),
    /// A candidate is to be contacted.
    Contact(QueryId, PeerId),
    /// Nothing.
    Idle,
}

/// The candidates after more peers were learned: those that are new come at the end.
pub open spec fn with_candidates(
    entries: Seq<(PeerId, PeerState)>,
    peers: Seq<PeerId>,
) -> Seq<(PeerId, PeerState)>
    decreases peers.len(),
{
    if peers.len() == 0 {
        entries
    } else {
        let before = with_candidates(entries, peers.drop_last());
        if has_key(before, peers.last()) {
            before
        } else {
            before.push((peers.last(), PeerState::NotContacted))
        }
    }
}

/// The state of a candidate.
pub open spec fn state_of(entries: Seq<(PeerId, PeerState)>, peer: PeerId) -> Option<PeerState> {
    if has_key(entries, peer) {
        Some(entries[key_index(entries, peer)].1)
    } else {
        None
    }
}

/// Whether a candidate is or was being contacted.
pub open spec fn was_contacted(entries: Seq<(PeerId, PeerState)>, peer: PeerId) -> bool {
    state_of(entries, peer) matches Some(s) && s != PeerState::NotContacted
}

/// Whether at most one request waits for each peer, and only for one that is being contacted.
pub open spec fn each_waits_once(
    rpcs: Seq<(PeerId, HandlerIn)>,
    entries: Seq<(PeerId, PeerState)>,
) -> bool {
    &&& forall|i: int, j: int|
        0 <= i < j < rpcs.len() ==> (#[trigger] rpcs[i]).0 != (#[trigger] rpcs[j]).0
    &&& forall|i: int|
        0 <= i < rpcs.len() ==> was_contacted(entries, (#[trigger] rpcs[i]).0)
}

/// Whether a request waits for a connection to a peer.
pub open spec fn awaits(rpcs: Seq<(PeerId, HandlerIn)>, peer: PeerId) -> bool {
    exists|i: int| 0 <= i < rpcs.len() && (#[trigger] rpcs[i]).0 == peer
}

/// A candidate gets the state that is stored for it, and every other one keeps its own.
pub proof fn lemma_state_insert(
    entries: Seq<(PeerId, PeerState)>,
    peer: PeerId,
    s: PeerState,
    other: PeerId,
)
    requires
        keys_distinct(entries),
    ensures
        state_of(entries_insert(entries, peer, s), other) == (if other == peer {
            Some(s)
        } else {
            state_of(entries, other)
        }),
{
    lemma_insert_get(entries, peer, s, other);
}

/// A candidate keeps its state when others are learned.
pub proof fn lemma_state_kept(
    entries: Seq<(PeerId, PeerState)>,
    peers: Seq<PeerId>,
    other: PeerId,
)
    requires
        keys_distinct(entries),
        has_key(entries, other),
    ensures
        state_of(with_candidates(entries, peers), other) == state_of(entries, other),
    decreases peers.len(),
{
    if peers.len() > 0 {
        lemma_with_candidates(entries, peers.drop_last());
        lemma_state_kept(entries, peers.drop_last(), other);
        let before = with_candidates(entries, peers.drop_last());
        lemma_state_insert(before, peers.last(), PeerState::NotContacted, other);
    }
}

/// Requests keep waiting, each for another peer, when a candidate is contacted, answers or
/// fails.
proof fn lemma_waits_insert(
    rpcs: Seq<(PeerId, HandlerIn)>,
    entries: Seq<(PeerId, PeerState)>,
    peer: PeerId,
    s: PeerState,
)
    requires
        keys_distinct(entries),
        each_waits_once(rpcs, entries),
        s != PeerState::NotContacted,
    ensures
        each_waits_once(rpcs, entries_insert(entries, peer, s)),
{
    assert forall|i: int| 0 <= i < rpcs.len() implies was_contacted(
        entries_insert(entries, peer, s),
        (#[trigger] rpcs[i]).0,
    ) by {
        lemma_state_insert(entries, peer, s, rpcs[i].0);
    }
}

/// Requests keep waiting, each for another peer, when candidates are learned.
proof fn lemma_waits_learn(
    rpcs: Seq<(PeerId, HandlerIn)>,
    entries: Seq<(PeerId, PeerState)>,
    peers: Seq<PeerId>,
)
    requires
        keys_distinct(entries),
        each_waits_once(rpcs, entries),
    ensures
        each_waits_once(rpcs, with_candidates(entries, peers)),
{
    assert forall|i: int| 0 <= i < rpcs.len() implies was_contacted(
        with_candidates(entries, peers),
        (#[trigger] rpcs[i]).0,
    ) by {
        lemma_state_kept(entries, peers, rpcs[i].0);
    }
}

/// The candidates that have answered.
pub open spec fn succeeded(entries: Seq<(PeerId, PeerState)>) -> Seq<PeerId>
    decreases entries.len(),
{
    if entries.len() == 0 {
        Seq::empty()
    } else {
        let before = succeeded(entries.drop_last());
        if entries.last().1 == PeerState::Succeeded {
            before.push(entries.last().0)
        } else {
            before
        }
    }
}

/// What the entries of a list of addresses are.
pub open spec fn addr_views(entries: Seq<(PeerId, Vec<Multiaddr>)>) -> Seq<
    (PeerId, Seq<Multiaddr>),
> {
    Seq::new(entries.len(), |i: int| (entries[i].0, entries[i].1@))
}

/// The addresses of a peer in a list.
pub open spec fn addrs_of(entries: Seq<(PeerId, Seq<Multiaddr>)>, peer: PeerId) -> Seq<Multiaddr> {
    if has_key(entries, peer) {
        entries[key_index(entries, peer)].1
    } else {
        Seq::empty()
    }
}

/// What a peer with its addresses is.
pub open spec fn info_view(info: PeerInfo) -> (PeerId, Seq<Multiaddr>) {
    (info.peer_id, info.addrs@)
}

/// Storing addresses is storing what they are.
pub proof fn lemma_addr_views_insert(
    entries: Seq<(PeerId, Vec<Multiaddr>)>,
    peer: PeerId,
    addrs: Vec<Multiaddr>,
)
    requires
        keys_distinct(entries),
    ensures
        addr_views(entries_insert(entries, peer, addrs)) == entries_insert(
            addr_views(entries),
            peer,
            addrs@,
        ),
        keys_distinct(addr_views(entries)),
{
    let views = addr_views(entries);
    assert forall|i: int, j: int| 0 <= i < j < views.len() implies (#[trigger] views[i]).0 != (
    #[trigger] views[j]).0 by {
        assert(entries[i].0 != entries[j].0);
    }
    lemma_addr_views_key(entries, peer);
    assert(addr_views(entries_insert(entries, peer, addrs)) =~= entries_insert(
        views,
        peer,
        addrs@,
    ));
}

/// A key stands in the same place in a list and in what the list is.
pub proof fn lemma_addr_views_key(entries: Seq<(PeerId, Vec<Multiaddr>)>, peer: PeerId)
    requires
        keys_distinct(entries),
    ensures
        has_key(addr_views(entries), peer) <==> has_key(entries, peer),
        has_key(entries, peer) ==> key_index(addr_views(entries), peer) == key_index(entries, peer),
{
    let views = addr_views(entries);
    if has_key(entries, peer) {
        let i = key_index(entries, peer);
        assert(views[i].0 == peer);
        let j = key_index(views, peer);
        assert(entries[j].0 == peer);
        lemma_key_index(entries, j);
    }
    if has_key(views, peer) {
        let i = key_index(views, peer);
        assert(entries[i].0 == peer);
    }
}

impl QueryPeers {
    /// What holds of the peers of a query at all times.
    pub open spec fn wf(&self) -> bool {
        self.candidates.wf() && self.addresses.wf()
    }

    /// The peers that the query found: of a search, those that have answered, from the closest
    /// to the farthest, and no more than were to be found.
    pub open spec fn results(&self) -> Seq<PeerId> {
        let done = succeeded(self.candidates.entries@);
        match self.kind {
            PeersKind::Closest { target, num_results } => at_most(
                by_distance(done, target),
                num_results@ as nat,
            ),
            PeersKind::Fixed => done,
        }
    }

    /// The peers that the query found, with the addresses that were learned.
    pub open spec fn result_infos(&self) -> Seq<(PeerId, Seq<Multiaddr>)> {
        let known = addr_views(self.addresses.entries@);
        Seq::new(
            self.results().len(),
            |i: int| (self.results()[i], addrs_of(known, self.results()[i])),
        )
    }

    /// The peers that the query found.
    pub fn peer_ids(&self) -> (r: Vec<PeerId>)
        ensures
            r@ == self.results(),
    {
        let entries = &self.candidates.entries;
        let mut done: Vec<PeerId> = Vec::new();
        let n: usize = entries.len();
        let mut i: usize = 0;
        while i < n
            invariant
                n == entries@.len(),
                i <= n,
                done@ == succeeded(entries@.take(i as int)),
            decreases n - i,
        {
            proof {
                assert(entries@.take(i + 1).drop_last() =~= entries@.take(i as int));
                assert(entries@.take(i + 1).last() == entries@[i as int]);
            }
            if entries[i].1 == PeerState::Succeeded {
                done.push(entries[i].0);
            }
            i = i + 1;
        }
        assert(entries@.take(n as int) =~= entries@);
        match &self.kind {
            PeersKind::Closest { target, num_results } => {
                let mut r = sort_by_distance(&done, target);
                let limit: usize = num_results.get();
                if r.len() > limit {
                    r.truncate(limit);
                }
                assert(r@ =~= self.results());
                r
            },
            PeersKind::Fixed => done,
        }
    }

    /// The peers that the query found, with the addresses that were learned.
    pub fn peer_infos(&self) -> (r: Vec<PeerInfo>)
        requires
            self.wf(),
        ensures
            infos_view(r@) == self.result_infos(),
    {
        let ids = self.peer_ids();
        let mut r: Vec<PeerInfo> = Vec::new();
        let n: usize = ids.len();
        let mut i: usize = 0;
        while i < n
            invariant
                n == ids@.len(),
                i <= n,
                r@.len() == i,
                self.wf(),
                ids@ == self.results(),
                forall|j: int|
                    0 <= j < i ==> info_view(#[trigger] r@[j]) == self.result_infos()[j],
            decreases n - i,
        {
            let peer_id = ids[i];
            let addrs = match self.addresses.get(&peer_id) {
                Some(list) => {
                    let copy = list.clone();
                    assert(copy@ =~= list@);
                    copy
                },
                None => Vec::new(),
            };
            proof {
                lemma_addr_views_key(self.addresses.entries@, peer_id);
                assert(addrs@ =~= addrs_of(addr_views(self.addresses.entries@), peer_id));
            }
            r.push(PeerInfo { peer_id, addrs });
            i = i + 1;
        }
        assert(infos_view(r@) =~= self.result_infos());
        r
    }
}

/// What the elements of a list are.
pub open spec fn infos_view(list: Seq<PeerInfo>) -> Seq<(PeerId, Seq<Multiaddr>)> {
    Seq::new(list.len(), |i: int| info_view(list[i]))
}

/// Learning peers keeps the candidates distinct.
pub proof fn lemma_with_candidates(entries: Seq<(PeerId, PeerState)>, peers: Seq<PeerId>)
    requires
        keys_distinct(entries),
    ensures
        keys_distinct(with_candidates(entries, peers)),
    decreases peers.len(),
{
    if peers.len() > 0 {
        lemma_with_candidates(entries, peers.drop_last());
        let before = with_candidates(entries, peers.drop_last());
        lemma_entries_insert(before, peers.last(), PeerState::NotContacted);
    }
}

/// Adds candidates that are not there.
fn add_candidates(candidates: &mut Assoc<PeerId, PeerState>, peers: &Vec<PeerId>)
    requires
        old(candidates).wf(),
    ensures
        final(candidates).wf(),
        final(candidates).entries@ == with_candidates(old(candidates).entries@, peers@),
{
    let ghost before = candidates.entries@;
    let n: usize = peers.len();
    let mut i: usize = 0;
    while i < n
        invariant
            n == peers@.len(),
            i <= n,
            candidates.wf(),
            candidates.entries@ == with_candidates(before, peers@.take(i as int)),
        decreases n - i,
    {
        proof {
            assert(peers@.take(i + 1).drop_last() =~= peers@.take(i as int));
            assert(peers@.take(i + 1).last() == peers@[i as int]);
        }
        if !candidates.contains_key(&peers[i]) {
            candidates.insert(peers[i], PeerState::NotContacted);
        }
        i = i + 1;
    }
    assert(peers@.take(n as int) =~= peers@);
}

/// Whether `after` is `before` once a candidate has answered, and named peers that are closer.
pub open spec fn answered(before: Query, after: Query, peer: PeerId, closer: Seq<PeerId>) -> bool {
    if state_of(before.peers.candidates.entries@, peer) == Some(PeerState::Waiting) {
        let marked = entries_insert(
            before.peers.candidates.entries@,
            peer,
            PeerState::Succeeded,
        );
        &&& after == (Query {
            stats: QueryStats { success: one_more(before.stats.success), ..before.stats },
            peers: QueryPeers { candidates: after.peers.candidates, ..before.peers },
            ..before
        })
        &&& after.peers.candidates.entries@ == (match before.peers.kind {
            PeersKind::Closest { .. } => with_candidates(marked, closer),
            PeersKind::Fixed => marked,
        })
    } else {
        after == before
    }
}

/// Whether `after` is `before` once a candidate has failed.
pub open spec fn failed(before: Query, after: Query, peer: PeerId) -> bool {
    if state_of(before.peers.candidates.entries@, peer) == Some(PeerState::Waiting) {
        &&& after == (Query {
            stats: QueryStats { failure: one_more(before.stats.failure), ..before.stats },
            peers: QueryPeers { candidates: after.peers.candidates, ..before.peers },
            ..before
        })
        &&& after.peers.candidates.entries@ == entries_insert(
            before.peers.candidates.entries@,
            peer,
            PeerState::Failed,
        )
    } else {
        after == before
    }
}

/// Whether `after` is `before` once a candidate is being contacted.
pub open spec fn contacted(before: Query, after: Query, peer: PeerId, now: Moment) -> bool {
    &&& after == (Query {
        stats: QueryStats {
            requests: one_more(before.stats.requests),
            start: started_at(before.stats.start, now),
            ..before.stats
        },
        peers: QueryPeers { candidates: after.peers.candidates, ..before.peers },
        ..before
    })
    &&& after.peers.candidates.entries@ == entries_insert(
        before.peers.candidates.entries@,
        peer,
        PeerState::Waiting,
    )
}

/// When a query was started: when it was first looked at.
pub open spec fn started_at(start: Option<Moment>, now: Moment) -> Option<Moment> {
    match start {
        Some(t) => Some(t),
        None => Some(now),
    }
}

/// Whether a query is a new one.
pub open spec fn is_new(
    q: Query,
    id: QueryId,
    info: QueryInfo,
    kind: PeersKind,
    seeds: Seq<PeerId>,
) -> bool {
    &&& q.id == id
    &&& q.info == info
    &&& q.stats == QueryStats::none()
    &&& q.pending_rpcs@.len() == 0
    &&& q.peers.kind == kind
    &&& q.peers.candidates.entries@ == with_candidates(Seq::empty(), seeds)
    &&& q.peers.addresses.entries@.len() == 0
    &&& !q.peers.finished
}

impl Query {
    /// What holds of a query at all times.
    pub open spec fn wf(&self) -> bool {
        &&& self.peers.wf()
        &&& self.info.wf()
        &&& each_waits_once(self.pending_rpcs@, self.peers.candidates.entries@)
    }

    /// A new query.
    fn new(id: QueryId, info: QueryInfo, kind: PeersKind, seeds: &Vec<PeerId>) -> (r: Query)
        requires
            info.wf(),
        ensures
            r.wf(),
            is_new(r, id, info, kind, seeds@),
    {
        let mut candidates: Assoc<PeerId, PeerState> = Assoc::new();
        add_candidates(&mut candidates, seeds);
        Query {
            id,
            info,
            stats: QueryStats::empty(),
            peers: QueryPeers { kind, candidates, addresses: Assoc::new(), finished: false },
            pending_rpcs: Vec::new(),
        }
    }

    /// Whether the query is to end as soon as possible.
    pub fn is_finished(&self) -> (r: bool)
        ensures
            r == self.peers.finished,
    {
        self.peers.finished
    }

    /// Ends the query as soon as possible.
    pub fn finish(&mut self)
        ensures
            *final(self) == (Query {
                peers: QueryPeers { finished: true, ..old(self).peers },
                ..*old(self)
            }),
    {
        self.peers.finished = true;
    }

    /// The state of a candidate.
    fn state(&self, peer: &PeerId) -> (r: Option<PeerState>)
        requires
            self.wf(),
        ensures
            r == state_of(self.peers.candidates.entries@, *peer),
    {
        match self.peers.candidates.get(peer) {
            Some(s) => Some(*s),
            None => None,
        }
    }

    /// Notes that a candidate has answered, and named peers that are closer.
    pub fn on_success(&mut self, peer: &PeerId, closer: &Vec<PeerId>)
        requires
            old(self).wf(),
        ensures
            final(self).wf(),
            answered(*old(self), *final(self), *peer, closer@),
    {
        if let Some(PeerState::Waiting) = self.state(peer) {
            proof {
                let entries = self.peers.candidates.entries@;
                let marked = entries_insert(entries, *peer, PeerState::Succeeded);
                lemma_entries_insert(entries, *peer, PeerState::Succeeded);
                lemma_waits_insert(self.pending_rpcs@, entries, *peer, PeerState::Succeeded);
                lemma_waits_learn(self.pending_rpcs@, marked, closer@);
            }
            self.peers.candidates.insert(*peer, PeerState::Succeeded);
            match self.peers.kind {
                PeersKind::Closest { .. } => {
                    add_candidates(&mut self.peers.candidates, closer);
                },
                PeersKind::Fixed => {},
            }
            self.stats.success = self.stats.success.saturating_add(1);
        }
    }

    /// Notes that a candidate has failed.
    pub fn on_failure(&mut self, peer: &PeerId)
        requires
            old(self).wf(),
        ensures
            final(self).wf(),
            failed(*old(self), *final(self), *peer),
    {
        if let Some(PeerState::Waiting) = self.state(peer) {
            proof {
                lemma_waits_insert(
                    self.pending_rpcs@,
                    self.peers.candidates.entries@,
                    *peer,
                    PeerState::Failed,
                );
            }
            self.peers.candidates.insert(*peer, PeerState::Failed);
            self.stats.failure = self.stats.failure.saturating_add(1);
        }
    }

    /// Notes that a candidate is being contacted.
    fn on_contact(&mut self, peer: &PeerId, now: Moment)
        requires
            old(self).wf(),
        ensures
            final(self).wf(),
            contacted(*old(self), *final(self), *peer, now),
    {
        proof {
            lemma_waits_insert(
                self.pending_rpcs@,
                self.peers.candidates.entries@,
                *peer,
                PeerState::Waiting,
            );
        }
        self.peers.candidates.insert(*peer, PeerState::Waiting);
        self.stats.requests = self.stats.requests.saturating_add(1);
        if self.stats.start.is_none() {
            self.stats.start = Some(now);
        }
    }
}

impl QueryInfo {
    /// The number of the next report, for a query that reports more than once.
    pub open spec fn step(&self) -> Option<ProgressStep> {
        match self {
            QueryInfo::Bootstrap { step, .. } => Some(*step),
            QueryInfo::GetClosestPeers { step, .. } => Some(*step),
            QueryInfo::GetProviders { step, .. } => Some(*step),
            QueryInfo::GetRecord { step, .. } => Some(*step),
            _ => None,
        }
    }

    /// What holds of what a query is about at all times: the last report has not been made,
    /// a search for the closest peers has made none, there are no more buckets to be
    /// refreshed than there are buckets, no provider was reported twice, the candidates for
    /// caching are in order, and no peer that has stored a record is counted twice.
    pub open spec fn wf(&self) -> bool {
        &&& self.step() matches Some(step) ==> !step.last
        &&& match self {
            QueryInfo::Bootstrap { remaining, .. } => remaining matches Some(list)
                ==> list@.len() < 256,
            QueryInfo::GetClosestPeers { step, .. } => step.count@ == 1,
            QueryInfo::GetProviders { providers_found, reported, .. } => {
                &&& reported@.no_duplicates()
                &&& *providers_found == reported@.len()
            },
            QueryInfo::GetRecord { cache_candidates, .. } => sorted(
                cache_candidates@,
            ),
            QueryInfo::PutRecord { phase, .. } => phase
                matches PutRecordPhase::PutRecord { success, .. }
                ==> success@.no_duplicates(),
            _ => true,
        }
    }

    /// Whether no more candidates for caching are tracked than there may be.
    pub open spec fn caches_at_most(&self, max_peers: nat) -> bool {
        self matches QueryInfo::GetRecord { cache_candidates, .. } ==> cache_candidates@.len()
            <= max_peers
    }

    /// Whether another report can follow the next one.
    pub open spec fn can_go_on(&self) -> bool {
        self.step() matches Some(step) ==> step.can_go_on()
    }
}

/// The number of the query that follows the one with number `n`.
pub open spec fn following(n: usize) -> usize {
    if n == usize::MAX {
        0
    } else {
        (n + 1) as usize
    }
}

/// Whether `after` is `before` with a new query in it.
pub open spec fn pool_added(
    before: QueryPool,
    after: QueryPool,
    id: QueryId,
    info: QueryInfo,
    kind: PeersKind,
    seeds: Seq<PeerId>,
) -> bool {
    let q = after.queries.entries@[key_index(after.queries.entries@, id)].1;
    &&& id == QueryId(before.next_id)
    &&& after == (QueryPool {
        next_id: following(before.next_id),
        queries: after.queries,
        ..before
    })
    &&& after.queries.entries@ == entries_insert(before.queries.entries@, id, q)
    &&& is_new(q, id, info, kind, seeds)
}

/// Whether `after` is `before` with a query in it that goes on under the number that it had.
pub open spec fn pool_continued(
    before: QueryPool,
    after: QueryPool,
    id: QueryId,
    info: QueryInfo,
    kind: PeersKind,
    seeds: Seq<PeerId>,
) -> bool {
    let q = after.queries.entries@[key_index(after.queries.entries@, id)].1;
    &&& after == (QueryPool { queries: after.queries, ..before })
    &&& after.queries.entries@ == entries_insert(before.queries.entries@, id, q)
    &&& is_new(q, id, info, kind, seeds)
}

/// The kind of a search for the peers closest to a key.
pub open spec fn closest_kind(config: QueryConfig, target: KeyBytes, info: QueryInfo) -> PeersKind {
    PeersKind::Closest {
        target,
        num_results: match info {
            QueryInfo::GetClosestPeers { num_results: Some(n), .. } => n,
            _ => config.replication_factor,
        },
    }
}

/// Whether `after` is `before` once every query was looked at.
pub open spec fn all_started(before: QueryPool, after: QueryPool, now: Moment) -> bool {
    &&& after == (QueryPool { queries: after.queries, ..before })
    &&& after.queries.entries@.len() == before.queries.entries@.len()
    &&& forall|i: int|
        0 <= i < before.queries.entries@.len() ==> (#[trigger] after.queries.entries@[i]) == (
            before.queries.entries@[i].0,
            Query {
                stats: QueryStats {
                    start: started_at(before.queries.entries@[i].1.stats.start, now),
                    ..before.queries.entries@[i].1.stats
                },
                ..before.queries.entries@[i].1
            },
        )
}

/// Whether a query has been running for too long.
pub open spec fn overdue(config: QueryConfig, q: Query, now: Moment) -> bool {
    q.stats.start matches Some(t) && now.nanos >= t.nanos + config.timeout@
}

/// A query that was taken out of the pool: it is over.
pub open spec fn ended(q: Query, now: Moment) -> Query {
    Query {
        stats: QueryStats { start: started_at(q.stats.start, now), end: Some(now), ..q.stats },
        ..q
    }
}

/// What a decision changes, and what is to be done.
pub open spec fn pool_polled(
    before: QueryPool,
    after: QueryPool,
    step: LookupStep,
    now: Moment,
    r: PoolState,
) -> bool {
    let entries = before.queries.entries@;
    match step {
        LookupStep::Contact { id, peer } => {
            let q = entries[key_index(entries, id)].1;
            if has_key(entries, id) && !q.peers.finished && state_of(
                q.peers.candidates.entries@,
                peer,
            ) == Some(PeerState::NotContacted) {
                let q2 = after.queries.entries@[key_index(entries, id)].1;
                &&& r == PoolState::Contact(id, peer)
                &&& after == (QueryPool { queries: after.queries, ..before })
                &&& after.queries.entries@ == entries_insert(entries, id, q2)
                &&& contacted(q, q2, peer, now)
            } else {
                r is Idle && after == before
            }
        },
        LookupStep::Finished { id } => {
            if has_key(entries, id) {
                &&& r == PoolState::Finished(ended(entries[key_index(entries, id)].1, now))
                &&& after == (QueryPool { queries: after.queries, ..before })
                &&& after.queries.entries@ == entries_remove(entries, id)
            } else {
                r is Idle && after == before
            }
        },
        LookupStep::TimedOut { id } => {
            let q = entries[key_index(entries, id)].1;
            if has_key(entries, id) && overdue(before.config, q, now) {
                &&& r == PoolState::Timeout(ended(q, now))
                &&& after == (QueryPool { queries: after.queries, ..before })
                &&& after.queries.entries@ == entries_remove(entries, id)
            } else {
                r is Idle && after == before
            }
        },
        LookupStep::Idle => r is Idle && all_started(before, after, now),
    }
}

/// The seeds of a search: at most as many of the closest known peers as there are in a bucket.
pub open spec fn seeds_of(peers: Seq<PeerId>) -> Seq<PeerId> {
    at_most(peers, K_VALUE as nat)
}

/// Whether a candidate of a query is being contacted, and no request waits for it yet.
pub open spec fn contact_is_new(pool: QueryPool, id: QueryId, peer: PeerId) -> bool {
    let entries = pool.queries.entries@;
    let q = entries[key_index(entries, id)].1;
    &&& has_key(entries, id)
    &&& was_contacted(q.peers.candidates.entries@, peer)
    &&& !awaits(q.pending_rpcs@, peer)
}

impl QueryPool {
    /// What holds of a pool at all times.
    pub open spec fn wf(&self) -> bool {
        &&& self.queries.wf()
        &&& forall|i: int|
            0 <= i < self.queries.entries@.len() ==> (#[trigger] self.queries.entries@[i]).1.wf()
                && self.queries.entries@[i].1.id == self.queries.entries@[i].0
    }

    /// Whether no query tracks more candidates for caching than there may be.
    pub open spec fn caches_at_most(&self, max_peers: nat) -> bool {
        forall|i: int|
            0 <= i < self.queries.entries@.len() ==> (
            #[trigger] self.queries.entries@[i]).1.info.caches_at_most(max_peers)
    }

    /// A pool without queries.
    pub fn new(config: QueryConfig) -> (r: Self)
        ensures
            r.wf(),
            r.config == config,
            r.next_id == 0,
            r.queries.entries@.len() == 0,
    {
        QueryPool { next_id: 0, config, queries: Assoc::new() }
    }

    /// The number of queries.
    pub fn size(&self) -> (r: usize)
        ensures
            r == self.queries.entries@.len(),
    {
        self.queries.entries.len()
    }

    /// Takes the number of the next query.
    fn next_query_id(&mut self) -> (r: QueryId)
        requires
            old(self).wf(),
        ensures
            final(self).wf(),
            r == QueryId(old(self).next_id),
            *final(self) == (QueryPool { next_id: following(old(self).next_id), ..*old(self) }),
    {
        let id = QueryId(self.next_id);
        if self.next_id == usize::MAX {
            self.next_id = 0;
        } else {
            self.next_id = self.next_id + 1;
        }
        id
    }

    /// Stores a query under its number.
    fn put(&mut self, q: Query)
        requires
            old(self).wf(),
            q.wf(),
        ensures
            final(self).wf(),
            *final(self) == (QueryPool { queries: final(self).queries, ..*old(self) }),
            final(self).queries.entries@ == entries_insert(old(self).queries.entries@, q.id, q),
            final(self).queries.entries@[key_index(final(self).queries.entries@, q.id)].1 == q,
    {
        let ghost before = self.queries.entries@;
        let ghost id = q.id;
        let ghost q0 = q;
        self.queries.insert(q.id, q);
        proof {
            lemma_pool_put(before, id, q0);
        }
    }

    /// Takes the kind of a search for the peers closest to a key.
    fn closest(&self, target: KeyBytes, info: &QueryInfo) -> (r: PeersKind)
        ensures
            r == closest_kind(self.config, target, *info),
    {
        let num_results = match info {
            QueryInfo::GetClosestPeers { num_results: Some(n), .. } => *n,
            _ => self.config.replication_factor,
        };
        PeersKind::Closest { target, num_results }
    }

    /// Starts a search for the peers closest to a key.
    pub fn add_iter_closest(
        &mut self,
        target: KeyBytes,
        peers: Vec<PeerId>,
        info: QueryInfo,
    ) -> (id: QueryId)
        requires
            old(self).wf(),
            info.wf(),
        ensures
            final(self).wf(),
            pool_added(
                *old(self),
                *final(self),
                id,
                info,
                closest_kind(old(self).config, target, info),
                seeds_of(peers@),
            ),
    {
        let id = self.next_query_id();
        let kind = self.closest(target, &info);
        let seeds = truncated(peers);
        let q = Query::new(id, info, kind, &seeds);
        self.put(q);
        id
    }

    /// Lets a query go on with a search for the peers closest to a key.
    pub fn continue_iter_closest(
        &mut self,
        id: QueryId,
        target: KeyBytes,
        peers: Vec<PeerId>,
        info: QueryInfo,
    )
        requires
            old(self).wf(),
            info.wf(),
        ensures
            final(self).wf(),
            pool_continued(
                *old(self),
                *final(self),
                id,
                info,
                closest_kind(old(self).config, target, info),
                seeds_of(peers@),
            ),
    {
        let kind = self.closest(target, &info);
        let seeds = truncated(peers);
        let q = Query::new(id, info, kind, &seeds);
        self.put(q);
    }

    /// Starts a query of the given peers.
    pub fn add_fixed(&mut self, peers: &Vec<PeerId>, info: QueryInfo) -> (id: QueryId)
        requires
            old(self).wf(),
            info.wf(),
        ensures
            final(self).wf(),
            pool_added(*old(self), *final(self), id, info, PeersKind::Fixed, peers@),
    {
        let id = self.next_query_id();
        let q = Query::new(id, info, PeersKind::Fixed, peers);
        self.put(q);
        id
    }

    /// Lets a query go on with the given peers.
    pub fn continue_fixed(&mut self, id: QueryId, peers: &Vec<PeerId>, info: QueryInfo)
        requires
            old(self).wf(),
            info.wf(),
        ensures
            final(self).wf(),
            pool_continued(*old(self), *final(self), id, info, PeersKind::Fixed, peers@),
    {
        let q = Query::new(id, info, PeersKind::Fixed, peers);
        self.put(q);
    }

    /// Removes a query, and says whether there was one.
    pub fn remove(&mut self, id: &QueryId) -> (r: bool)
        requires
            old(self).wf(),
        ensures
            final(self).wf(),
            *final(self) == (QueryPool { queries: final(self).queries, ..*old(self) }),
            final(self).queries.entries@ == entries_remove(old(self).queries.entries@, *id),
            r == has_key(old(self).queries.entries@, *id),
    {
        let ghost before = self.queries.entries@;
        let r = self.queries.remove(id);
        proof {
            lemma_pool_remove(before, *id);
        }
        r.is_some()
    }

    /// Carries out a decision on the running queries.
    pub fn poll(&mut self, step: LookupStep, now: Moment) -> (r: PoolState)
        requires
            old(self).wf(),
        ensures
            final(self).wf(),
            pool_polled(*old(self), *final(self), step, now, r),
            r matches PoolState::Finished(q) ==> q.wf(),
            r matches PoolState::Timeout(q) ==> q.wf(),
            r matches PoolState::Contact(id, peer) ==> contact_is_new(*final(self), id, peer),
    {
        let ghost before = self.queries.entries@;
        match step {
            LookupStep::Contact { id, peer } => {
                if let Some(i) = self.queries.position(&id) {
                    let q = &self.queries.entries[i].1;
                    if !q.is_finished() {
                        if let Some(PeerState::NotContacted) = q.state(&peer) {
                            self.queries.entries[i].1.on_contact(&peer, now);
                            proof {
                                let q0 = before[i as int].1;
                                let q1 = self.queries.entries@[i as int].1;
                                lemma_pool_put(before, id, q1);
                                assert(self.queries.entries@ =~= entries_insert(before, id, q1));
                                lemma_key_index(self.queries.entries@, i as int);
                                lemma_state_insert(
                                    q0.peers.candidates.entries@,
                                    peer,
                                    PeerState::Waiting,
                                    peer,
                                );
                                assert(q0.wf());
                                assert(!awaits(q1.pending_rpcs@, peer));
                            }
                            return PoolState::Contact(id, peer);
                        }
                    }
                }
                PoolState::Idle
            },
            LookupStep::Finished { id } => {
                match self.queries.remove(&id) {
                    Some(q) => {
                        proof {
                            lemma_pool_remove(before, id);
                            assert(before[key_index(before, id)].1.wf());
                        }
                        PoolState::Finished(finalized(q, now))
                    },
                    None => {
                        PoolState::Idle
                    },
                }
            },
            LookupStep::TimedOut { id } => {
                let late = match self.queries.get(&id) {
                    Some(q) => match q.stats.start {
                        Some(t) => now.nanos >= t.nanos && now.nanos - t.nanos
                            >= self.config.timeout.as_nanos(),
                        None => false,
                    },
                    None => false,
                };
                if !late {
                    return PoolState::Idle;
                }
                match self.queries.remove(&id) {
                    Some(q) => {
                        proof {
                            lemma_pool_remove(before, id);
                            assert(before[key_index(before, id)].1.wf());
                        }
                        PoolState::Timeout(finalized(q, now))
                    },
                    None => PoolState::Idle,
                }
            },
            LookupStep::Idle => {
                self.start_all(now);
                PoolState::Idle
            },
        }
    }

    /// Notes that every query was looked at.
    fn start_all(&mut self, now: Moment)
        requires
            old(self).wf(),
        ensures
            final(self).wf(),
            all_started(*old(self), *final(self), now),
    {
        let ghost before = *self;
        let n: usize = self.queries.entries.len();
        let mut i: usize = 0;
        while i < n
            invariant
                n == self.queries.entries@.len(),
                n == before.queries.entries@.len(),
                i <= n,
                before.wf(),
                *self == (QueryPool { queries: self.queries, ..before }),
                forall|j: int|
                    i <= j < n ==> #[trigger] self.queries.entries@[j]
                        == before.queries.entries@[j],
                forall|j: int|
                    0 <= j < i ==> (#[trigger] self.queries.entries@[j]) == (
                        before.queries.entries@[j].0,
                        Query {
                            stats: QueryStats {
                                start: started_at(before.queries.entries@[j].1.stats.start, now),
                                ..before.queries.entries@[j].1.stats
                            },
                            ..before.queries.entries@[j].1
                        },
                    ),
            decreases n - i,
        {
            assert(self.queries.entries@[i as int] == before.queries.entries@[i as int]);
            if self.queries.entries[i].1.stats.start.is_none() {
                self.queries.entries[i].1.stats.start = Some(now);
            }
            i = i + 1;
        }
        proof {
            assert forall|j: int| 0 <= j < n implies (#[trigger] self.queries.entries@[j]).1.wf()
                && self.queries.entries@[j].1.id == self.queries.entries@[j].0 by {
                assert(before.queries.entries@[j].1.wf());
            }
            assert forall|a: int, b: int| 0 <= a < b < n implies (
            #[trigger] self.queries.entries@[a]).0 != (#[trigger] self.queries.entries@[b]).0 by {
                assert(before.queries.entries@[a].0 != before.queries.entries@[b].0);
            }
        }
    }
}

/// A query that was taken out of the pool: it is over.
fn finalized(q: Query, now: Moment) -> (r: Query)
    ensures
        r == ended(q, now),
{
    let mut q = q;
    if q.stats.start.is_none() {
        q.stats.start = Some(now);
    }
    q.stats.end = Some(now);
    q
}

/// The seeds of a search.
fn truncated(peers: Vec<PeerId>) -> (r: Vec<PeerId>)
    ensures
        r@ == seeds_of(peers@),
{
    let mut peers = peers;
    if peers.len() > K_VALUE {
        peers.truncate(K_VALUE);
    }
    peers
}

/// A query that is stored under its number is found there, and the others stay as they are.
pub proof fn lemma_pool_put(entries: Seq<(QueryId, Query)>, id: QueryId, q: Query)
    requires
        keys_distinct(entries),
        q.wf(),
        q.id == id,
        forall|i: int|
            0 <= i < entries.len() ==> (#[trigger] entries[i]).1.wf() && entries[i].1.id
                == entries[i].0,
    ensures
        ({
            let after = entries_insert(entries, id, q);
            &&& keys_distinct(after)
            &&& has_key(after, id)
            &&& after[key_index(after, id)].1 == q
            &&& forall|i: int|
                0 <= i < after.len() ==> (#[trigger] after[i]).1.wf() && after[i].1.id == after[i].0
        }),
{
    let after = entries_insert(entries, id, q);
    lemma_entries_insert(entries, id, q);
    let at = if has_key(entries, id) {
        key_index(entries, id)
    } else {
        entries.len() as int
    };
    assert(after[at] == (id, q));
    lemma_key_index(after, at);
    assert forall|i: int| 0 <= i < after.len() implies (#[trigger] after[i]).1.wf() && after[i].1.id
        == after[i].0 by {
        if i != at {
            assert(after[i] == entries[i]);
        }
    }
}

/// When a query is removed, the others stay as they are.
pub proof fn lemma_pool_remove(entries: Seq<(QueryId, Query)>, id: QueryId)
    requires
        forall|i: int|
            0 <= i < entries.len() ==> (#[trigger] entries[i]).1.wf() && entries[i].1.id
                == entries[i].0,
    ensures
        ({
            let after = entries_remove(entries, id);
            forall|i: int|
                0 <= i < after.len() ==> (#[trigger] after[i]).1.wf() && after[i].1.id == after[i].0
        }),
{
    let after = entries_remove(entries, id);
    if has_key(entries, id) {
        let at = key_index(entries, id);
        assert forall|i: int| 0 <= i < after.len() implies (#[trigger] after[i]).1.wf()
            && after[i].1.id == after[i].0 by {
            assert(after[i] == entries[if i < at {
                i
            } else {
                i + 1
            }]);
        }
    }
}

} // verus!
