//! What the application is told, and what a query is about.

use libp2p_core::Multiaddr;
use libp2p_identity::PeerId;
use libp2p_swarm::ConnectionId;
use vstd::prelude::*;

use crate::assoc::Assoc;
use crate::kad::addresses::Addresses;
use crate::kad::key::Distance;
use crate::kad::protocol::Mode;
use crate::kad::protocol::QueryId;
use crate::kad::record::Key;
use crate::kad::record::ProviderRecord;
use crate::kad::record::Record;
use crate::nonzero::NonZeroUsize;
use crate::time::option_max;
use crate::time::spec_option_max;
use crate::time::Moment;

verus! {

/// A peer with its addresses.
#[derive(Debug, PartialEq, Eq)]
pub struct PeerInfo {
    /// The peer.
    pub peer_id: PeerId,
    /// The addresses of the peer.
    pub addrs: Vec<Multiaddr>,
}

/// How many distinct peers have to be contacted successfully for a query to succeed.
#[derive(Clone, Copy, Debug, PartialEq, Eq)]
pub enum Quorum {
    /// One peer.
    One,
    /// More than half of the peers.
    Majority,
    /// All peers.
    All,
    /// The given number of peers, or all if there are fewer.
    N(NonZeroUsize),
}

impl Quorum {
    /// The number of peers, out of a total.
    pub open spec fn spec_eval(&self, total: int) -> int {
        match self {
            Quorum::One => 1,
            Quorum::Majority => total / 2 + 1,
            Quorum::All => total,
            Quorum::N(n) => if n@ <= total {
                n@ as int
            } else {
                total
            },
        }
    }

    /// The number of peers, out of a total.
    pub fn eval(&self, total: NonZeroUsize) -> (r: NonZeroUsize)
        ensures
            r@ == self.spec_eval(total@ as int),
            1 <= r@ <= total@,
    {
        let n: usize = total.get();
        match self {
            Quorum::One => NonZeroUsize::one(),
            Quorum::Majority => match NonZeroUsize::new(n / 2 + 1) {
                Some(m) => m,
                None => total,
            },
            Quorum::All => total,
            Quorum::N(m) => {
                let k: usize = m.get();
                if k <= n {
                    *m
                } else {
                    total
                }
            },
        }
    }
}

/// A record, with the peer that it came from.
#[derive(Debug, PartialEq, Eq)]
pub struct PeerRecord {
    /// The peer that returned the record, or `None` if it comes from the local store.
    pub peer: Option<PeerId>,
    /// The record.
    pub record: Record,
}

/// The progress of a query that reports more than once.
#[derive(Clone, Copy, Debug)]
pub struct ProgressStep {
    /// The number of the report, from one on.
    pub count: NonZeroUsize,
    /// Whether this is the last report.
    pub last: bool,
}

impl ProgressStep {
    /// Whether another report can follow.
    pub open spec fn can_go_on(&self) -> bool {
        !self.last && self.count@ < usize::MAX
    }

    /// Whether `next` is the report that follows this one.
    pub open spec fn followed_by(&self, next: ProgressStep) -> bool {
        next.count@ == self.count@ + 1 && !next.last
    }

    /// The first report.
    pub fn first() -> (r: Self)
        ensures
            r.count@ == 1,
            !r.last,
    {
        ProgressStep { count: NonZeroUsize::one(), last: false }
    }

    /// The only report.
    pub fn first_and_last() -> (r: Self)
        ensures
            r.count@ == 1,
            r.last,
    {
        ProgressStep { count: NonZeroUsize::one(), last: true }
    }

    /// The report that follows one that is not the last.
    pub fn next(&self) -> (r: Self)
        requires
            self.can_go_on(),
        ensures
            self.followed_by(r),
    {
        let n: usize = self.count.get();
        match NonZeroUsize::new(n + 1) {
            Some(count) => ProgressStep { count, last: false },
            None => ProgressStep { count: self.count, last: false },
        }
    }

    /// The same report, as the last one.
    pub open spec fn as_last(self) -> ProgressStep {
        ProgressStep { last: true, ..self }
    }
}

/// The statistics of a query.
#[derive(Clone, Copy, Debug, PartialEq, Eq)]
pub struct QueryStats {
    /// The number of requests.
    pub requests: u32,
    /// The number of requests that were answered.
    pub success: u32,
    /// The number of requests that failed.
    pub failure: u32,
    /// When the query was started.
    pub start: Option<Moment>,
    /// When the query was over.
    pub end: Option<Moment>,
}

/// A counter after one more, which stays where it is at its end.
pub open spec fn one_more(n: u32) -> u32 {
    if n == u32::MAX {
        n
    } else {
        (n + 1) as u32
    }
}

/// The sum of two counters, which stays where it is at their end.
pub open spec fn sum(a: u32, b: u32) -> u32 {
    if a + b > u32::MAX {
        u32::MAX
    } else {
        (a + b) as u32
    }
}

/// The earlier of two optional points in time, or the one that there is.
pub open spec fn earlier(a: Option<Moment>, b: Option<Moment>) -> Option<Moment> {
    match (a, b) {
        (Some(x), Some(y)) => Some(
            if x.nanos <= y.nanos {
                x
            } else {
                y
            },
        ),
        (Some(x), None) => Some(x),
        (None, other) => other,
    }
}

impl QueryStats {
    /// The statistics of a query that has made no request.
    pub open spec fn none() -> QueryStats {
        QueryStats { requests: 0, success: 0, failure: 0, start: None, end: None }
    }

    /// The statistics of a query that has made no request.
    pub fn empty() -> (r: Self)
        ensures
            r == Self::none(),
    {
        QueryStats { requests: 0, success: 0, failure: 0, start: None, end: None }
    }

    /// The statistics of two phases of one query.
    pub open spec fn merged(self, other: QueryStats) -> QueryStats {
        QueryStats {
            requests: sum(self.requests, other.requests),
            success: sum(self.success, other.success),
            failure: sum(self.failure, other.failure),
            start: earlier(self.start, other.start),
            end: spec_option_max(self.end, other.end),
        }
    }

    /// The statistics of two phases of one query.
    pub fn merge(self, other: QueryStats) -> (r: QueryStats)
        ensures
            r == self.merged(other),
    {
        QueryStats {
            requests: self.requests.saturating_add(other.requests),
            success: self.success.saturating_add(other.success),
            failure: self.failure.saturating_add(other.failure),
            start: match (self.start, other.start) {
                (Some(x), Some(y)) => if x.nanos <= y.nanos {
                    Some(x)
                } else {
                    Some(y)
                },
                (Some(x), None) => Some(x),
                (None, y) => y,
            },
            end: option_max(self.end, other.end),
        }
    }
}

/// What the application is told.
#[allow(inconsistent_fields)]
#[derive(Debug)]
pub enum Event {
    /// A remote peer made a request, and it was handled.
    InboundRequest {
        /// The request.
        request: InboundRequest,
    },
    /// A query that the local node started made progress.
    OutboundQueryProgressed {
        /// The query.
        id: QueryId,
        /// What came out so far.
        result: QueryResult,
        /// The statistics of the query.
        stats: QueryStats,
        /// The progress of the query.
        step: ProgressStep,
    },
    /// The routing table has a new peer, or a peer has a new address.
    RoutingUpdated {
        /// The peer.
        peer: PeerId,
        /// Whether the peer is new.
        is_new_peer: bool,
        /// The addresses of the peer.
        addresses: Addresses,
        /// The smallest and the largest distance in the peer's bucket.
        bucket_range: (Distance, Distance),
        /// The peer that made room.
        old_peer: Option<PeerId>,
    },
    /// A peer has connected that no listen address is known of.
    UnroutablePeer {
        /// The peer.
        peer: PeerId,
    },
    /// A peer has connected that a listen address is known of, and it was not added to the
    /// routing table.
    RoutablePeer {
        /// The peer.
        peer: PeerId,
        /// The address.
        address: Multiaddr,
    },
    /// A peer has connected that a listen address is known of, and it waits for a place in
    /// the routing table.
    PendingRoutablePeer {
        /// The peer.
        peer: PeerId,
        /// The address.
        address: Multiaddr,
    },
    /// The mode has changed by itself.
    ModeChanged {
        /// The new mode.
        new_mode: Mode,
    },
}

/// A request of a remote peer that was handled.
#[allow(inconsistent_fields)]
#[derive(Debug)]
pub enum InboundRequest {
    /// It asked for the peers closest to a key.
    FindNode {
        /// The number of peers that it got.
        num_closer_peers: usize,
    },
    /// It asked for the providers of a key.
    GetProvider {
        /// The number of closer peers that it got.
        num_closer_peers: usize,
        /// The number of providers that it got.
        num_provider_peers: usize,
    },
    /// It announced a provider.
    AddProvider {
        /// The provider record, if the application is to decide on it.
        record: Option<ProviderRecord>,
    },
    /// It asked for a record.
    GetRecord {
        /// The number of closer peers that it got.
        num_closer_peers: usize,
        /// Whether it got a record.
        present_locally: bool,
    },
    /// It asked to store a record.
    PutRecord {
        /// The peer.
        source: PeerId,
        /// The connection.
        connection: ConnectionId,
        /// The record, if the application is to decide on it.
        record: Option<Record>,
    },
}

/// What came out of a query so far.
#[derive(Debug)]
pub enum QueryResult {
    /// Of a bootstrap.
    Bootstrap(BootstrapResult),
    /// Of a search for the closest peers.
    GetClosestPeers(GetClosestPeersResult),
    /// Of a search for providers.
    GetProviders(GetProvidersResult),
    /// Of the announcement that the local node is a provider.
    StartProviding(AddProviderResult),
    /// Of the repeated announcement that the local node is a provider.
    RepublishProvider(AddProviderResult),
    /// Of a search for a record.
    GetRecord(GetRecordResult),
    /// Of the storing of a record.
    PutRecord(PutRecordResult),
    /// Of the repeated storing of a record.
    RepublishRecord(PutRecordResult),
}

/// The result of a search for a record.
pub type GetRecordResult = Result<GetRecordOk, GetRecordError>;

/// The success of a search for a record.
#[derive(Debug)]
pub enum GetRecordOk {
    /// A record was found.
    FoundRecord(PeerRecord),
    /// The search is over.
    FinishedWithNoAdditionalRecord {
        /// The peers closest to the key that did not return the record, from the closest to
        /// the farthest, with their distances.
        cache_candidates: Vec<(Distance, PeerId)>,
    },
}

/// The failure of a search for a record.
#[derive(Debug)]
pub enum GetRecordError {
    /// No peer has the record.
    NotFound {
        /// The key.
        key: Key,
        /// The peers closest to the key.
        closest_peers: Vec<PeerId>,
    },
    /// Too few peers have the record.
    QuorumFailed {
        /// The key.
        key: Key,
        /// The records that were found.
        records: Vec<PeerRecord>,
        /// The number of peers that was needed.
        quorum: NonZeroUsize,
    },
    /// The search took too long.
    Timeout {
        /// The key.
        key: Key,
    },
}

/// The result of the storing of a record.
pub type PutRecordResult = Result<PutRecordOk, PutRecordError>;

/// The success of the storing of a record.
#[derive(Debug)]
pub struct PutRecordOk {
    /// The key of the record.
    pub key: Key,
}

/// The failure of the storing of a record.
#[derive(Debug)]
pub enum PutRecordError {
    /// Too few peers stored the record.
    QuorumFailed {
        /// The key.
        key: Key,
        /// The peers that stored the record.
        success: Vec<PeerId>,
        /// The number of peers that was needed.
        quorum: NonZeroUsize,
    },
    /// The storing took too long.
    Timeout {
        /// The key.
        key: Key,
        /// The peers that stored the record.
        success: Vec<PeerId>,
        /// The number of peers that was needed.
        quorum: NonZeroUsize,
    },
}

/// The result of a bootstrap.
pub type BootstrapResult = Result<BootstrapOk, BootstrapError>;

/// The success of one step of a bootstrap.
#[derive(Debug)]
pub struct BootstrapOk {
    /// The peer that was looked for.
    pub peer: PeerId,
    /// The number of buckets that are still to be refreshed.
    pub num_remaining: u32,
}

/// The failure of one step of a bootstrap.
#[derive(Debug)]
pub enum BootstrapError {
    /// The step took too long.
    Timeout {
        /// The peer that was looked for.
        peer: PeerId,
        /// The number of buckets that are still to be refreshed, if it is known.
        num_remaining: Option<u32>,
    },
}

/// The result of a search for the closest peers.
pub type GetClosestPeersResult = Result<GetClosestPeersOk, GetClosestPeersError>;

/// The success of a search for the closest peers.
#[derive(Debug)]
pub struct GetClosestPeersOk {
    /// The key.
    pub key: Vec<u8>,
    /// The peers, from the closest to the farthest.
    pub peers: Vec<PeerInfo>,
}

/// The failure of a search for the closest peers.
#[derive(Debug)]
pub enum GetClosestPeersError {
    /// The search took too long.
    Timeout {
        /// The key.
        key: Vec<u8>,
        /// The peers that were found, from the closest to the farthest.
        peers: Vec<PeerInfo>,
    },
}

/// The result of a search for providers.
pub type GetProvidersResult = Result<GetProvidersOk, GetProvidersError>;

/// The success of a search for providers.
#[allow(inconsistent_fields)]
#[derive(Debug)]
pub enum GetProvidersOk {
    /// Providers were found.
    FoundProviders {
        /// The key.
        key: Key,
        /// The providers that were not reported before for this query, with the addresses
        /// that are known of them.
        providers: Assoc<PeerId, Vec<Multiaddr>>,
    },
    /// The search is over.
    FinishedWithNoAdditionalRecord {
        /// The peers closest to the key.
        closest_peers: Vec<PeerId>,
    },
}

/// The failure of a search for providers.
#[derive(Debug)]
pub enum GetProvidersError {
    /// The search took too long.
    Timeout {
        /// The key.
        key: Key,
        /// The peers closest to the key that were found.
        closest_peers: Vec<PeerId>,
    },
}

/// The result of the announcement of a provider.
pub type AddProviderResult = Result<AddProviderOk, AddProviderError>;

/// The success of the announcement of a provider.
#[derive(Debug)]
pub struct AddProviderOk {
    /// The key.
    pub key: Key,
}

/// The failure of the announcement of a provider.
#[derive(Debug)]
pub enum AddProviderError {
    /// The announcement took too long.
    Timeout {
        /// The key.
        key: Key,
    },
}

/// Why a provider is announced.
#[derive(Clone, Copy, Debug, PartialEq, Eq, Structural)]
pub enum AddProviderContext {
    /// The application asked for it.
    Publish,
    /// It is time to repeat it.
    Republish,
}

/// Why a record is stored.
#[derive(Clone, Copy, Debug, PartialEq, Eq, Structural)]
pub enum PutRecordContext {
    /// The application asked for it.
    Publish,
    /// It is time to repeat it.
    Republish,
    /// It is time to replicate a record of another peer.
    Replicate,
    /// The application asked for it at peers of its choice.
    Custom,
}

/// What a query is about.
#[allow(inconsistent_fields)]
#[derive(Debug)]
pub enum QueryInfo {
    /// A bootstrap.
    Bootstrap {
        /// The peer that is looked for.
        peer: PeerId,
        /// The peers that are to be looked for next, one for each bucket that is to be
        /// refreshed, or `None` before the local peer was looked for.
        remaining: Option<Vec<PeerId>>,
        /// The number of the next report.
        step: ProgressStep,
    },
    /// A search for the closest peers.
    GetClosestPeers {
        /// The key.
        key: Vec<u8>,
        /// The number of the next report.
        step: ProgressStep,
        /// The number of peers to be found.
        num_results: Option<NonZeroUsize>,
    },
    /// A search for providers.
    GetProviders {
        /// The key.
        key: Key,
        /// The number of providers that were found.
        providers_found: usize,
        /// The providers that were reported.
        reported: Vec<PeerId>,
        /// The number of the next report.
        step: ProgressStep,
    },
    /// The announcement of a provider.
    AddProvider {
        /// The key.
        key: Key,
        /// How far the announcement is.
        phase: AddProviderPhase,
        /// Why the provider is announced.
        context: AddProviderContext,
    },
    /// The storing of a record.
    PutRecord {
        /// The record.
        record: Record,
        /// The number of peers that have to store the record.
        quorum: NonZeroUsize,
        /// How far the storing is.
        phase: PutRecordPhase,
        /// Why the record is stored.
        context: PutRecordContext,
    },
    /// A search for a record.
    GetRecord {
        /// The key.
        key: Key,
        /// The number of the next report.
        step: ProgressStep,
        /// Whether a record was found.
        found_a_record: bool,
        /// The peers closest to the key that did not return the record, from the closest to
        /// the farthest, with their distances.
        cache_candidates: Vec<(Distance, PeerId)>,
    },
}

/// How far the announcement of a provider is.
#[derive(Debug)]
pub enum AddProviderPhase {
    /// The peers closest to the key are looked for.
    GetClosestPeers,
    /// The provider is announced to them.
    AddProvider {
        /// The provider.
        provider_id: PeerId,
        /// The addresses of the provider.
        external_addresses: Vec<Multiaddr>,
        /// The statistics of the search.
        get_closest_peers_stats: QueryStats,
    },
}

/// How far the storing of a record is.
#[derive(Debug, PartialEq, Eq)]
pub enum PutRecordPhase {
    /// The peers closest to the key are looked for.
    GetClosestPeers,
    /// The record is sent to them.
    PutRecord {
        /// The peers that have stored the record.
        success: Vec<PeerId>,
        /// The statistics of the search.
        get_closest_peers_stats: QueryStats,
    },
}

/// No peer is known.
#[derive(Debug)]
pub struct NoKnownPeers();

/// What became of an address that was to be added.
#[derive(Clone, Copy, Debug, PartialEq, Eq, Structural)]
pub enum RoutingUpdate {
    /// It is in the routing table.
    Success,
    /// Its peer waits for a place in the routing table.
    Pending,
    /// It is not in the routing table.
    Failed,
}

} // verus!
