//! The Kademlia behaviour: what it holds, and how it is made.

use std::collections::VecDeque;

use fnv::FnvHashSet;
use libp2p_core::Multiaddr;
use libp2p_identity::PeerId;
use libp2p_swarm::ConnectionId;
use libp2p_swarm::ExternalAddresses;
use libp2p_swarm::ListenAddresses;
use libp2p_swarm::StreamProtocol;
use vstd::prelude::*;

use crate::assoc::Assoc;
use crate::kad::bootstrap::Status;
use crate::kad::config::BucketInserts;
use crate::kad::config::Caching;
use crate::kad::config::Config;
use crate::kad::config::ProtocolConfig;
use crate::kad::config::StoreInserts;
use crate::kad::events::Event;
use crate::kad::jobs::AddProviderJob;
use crate::kad::jobs::PutRecordJob;
use crate::kad::kbucket::empty_table;
use crate::kad::kbucket::KBucketsTable;
use crate::kad::protocol::HandlerIn;
use crate::kad::protocol::Mode;
use crate::kad::query::QueryPool;
use crate::net::dial_view;
use crate::net::external_addrs;
use crate::net::is_present;
use crate::net::listen_addrs;
use crate::net::no_external_addresses;
use crate::net::no_listen_addresses;
use crate::net::no_peers;
use crate::net::present_reading;
use crate::net::read_clock;
use crate::net::time_between;
use crate::net::DialView;
use crate::swarm::PeerCondition;
use crate::swarm::ToSwarm;
use crate::time::Duration;
use crate::time::Moment;
use crate::time::MAX_ELAPSED;

verus! {

/// What the behaviour asks of the swarm.
pub type Request = ToSwarm<Event, HandlerIn>;

/// The Kademlia behaviour.
pub struct Behaviour<TStore> {
    /// The routing table.
    pub kbuckets: KBucketsTable,
    /// The strategy for the insertion of peers.
    pub kbucket_inserts: BucketInserts,
    /// The configuration of the wire protocol.
    pub protocol_config: ProtocolConfig,
    /// The strategy for the acceptance of records.
    pub record_filtering: StoreInserts,
    /// The queries that are running.
    pub queries: QueryPool,
    /// The peers that are connected, among them those of the routing table.
    pub connected_peers: FnvHashSet<PeerId>,
    /// The job that publishes provider records.
    pub add_provider_job: Option<AddProviderJob>,
    /// The job that replicates and publishes records.
    pub put_record_job: Option<PutRecordJob>,
    /// The time to live of records.
    pub record_ttl: Option<Duration>,
    /// The time to live of provider records.
    pub provider_record_ttl: Option<Duration>,
    /// What polling will yield, first to last.
    pub queued_events: VecDeque<Request>,
    /// The addresses that the local node listens on.
    pub listen_addresses: ListenAddresses,
    /// The confirmed external addresses of the local node.
    pub external_addresses: ExternalAddresses,
    /// The connections, each with its peer.
    pub connections: Assoc<ConnectionId, PeerId>,
    /// The configuration of caching.
    pub caching: Caching,
    /// The local peer.
    pub local_peer_id: PeerId,
    /// Whether the node serves requests.
    pub mode: Mode,
    /// Whether the mode changes by itself.
    pub auto_mode: bool,
    /// Whether somebody waits to be woken.
    pub no_events_waker: bool,
    /// The store of records.
    pub store: TStore,
    /// The status of the bootstrap.
    pub bootstrap_status: Status,
    /// The point in time that all others are measured from.
    pub clock: web_time::Instant,
}

/// Whether `after` is `before` with one thing more at the end.
pub open spec fn queued_one<T>(before: Seq<T>, after: Seq<T>) -> bool {
    after == before.push(after.last())
}

/// Whether `after` is `before` with two things more at the end.
pub open spec fn queued_two<T>(before: Seq<T>, after: Seq<T>) -> bool {
    after == before.push(after[before.len() as int]).push(after.last())
}

/// Whether a request is to dial a peer wherever it is known to be.
pub open spec fn dials_peer(request: Request, peer: PeerId) -> bool {
    request matches ToSwarm::Dial { opts } && dial_view(opts) == (DialView {
        peer,
        condition: PeerCondition::DisconnectedAndNotDialing,
        addresses: Seq::empty(),
        extend_addresses: true,
        as_listener: false,
        new_port: false,
    })
}

/// The event that a request hands to the application.
pub open spec fn told(event: Event) -> Request {
    ToSwarm::GenerateEvent(event)
}

impl<TStore> Behaviour<TStore> {
    /// What holds of a behaviour at all times. In particular, the connected peers of the
    /// routing table are among the connected peers, and no search for a record tracks more
    /// candidates for caching than it may.
    pub open spec fn wf(&self) -> bool {
        &&& self.kbuckets.wf()
        &&& self.kbuckets@.local == self.local_peer_id
        &&& self.queries.wf()
        &&& self.connections.wf()
        &&& self.kbuckets@.connected_within(self.connected_peers@)
        &&& self.queries.caches_at_most(self.caching.most_candidates())
    }

    /// Whether the behaviour is a new one of the given peer, with the given configuration.
    pub open spec fn is_new(&self, id: PeerId, store: TStore, config: Config) -> bool {
        &&& self.store == store
        &&& self.local_peer_id == id
        &&& self.caching == config.caching
        &&& self.kbuckets@ == empty_table(id, config.kbucket_config)
        &&& self.kbucket_inserts == config.kbucket_inserts
        &&& self.protocol_config == config.protocol_config
        &&& self.record_filtering == config.record_filtering
        &&& self.queued_events@.len() == 0
        &&& listen_addrs(self.listen_addresses) == Set::<Multiaddr>::empty()
        &&& external_addrs(self.external_addresses) == Seq::<Multiaddr>::empty()
        &&& self.queries.config == config.query_config
        &&& self.queries.queries.entries@.len() == 0
        &&& self.connected_peers@ == Set::<PeerId>::empty()
        &&& self.connections.entries@.len() == 0
        &&& self.record_ttl == config.record_ttl
        &&& self.provider_record_ttl == config.provider_record_ttl
        &&& self.mode == Mode::Client
        &&& self.auto_mode
        &&& !self.no_events_waker
        &&& self.bootstrap_status.interval == config.periodic_bootstrap_interval
        &&& self.bootstrap_status.automatic_throttle == config.automatic_bootstrap_throttle
        &&& self.bootstrap_status.signals@.len() == 0
        &&& !self.bootstrap_status.due
        &&& match self.add_provider_job {
            Some(job) => config.provider_publication_interval == Some(job.interval)
                && job.ready@.len() == 0,
            None => config.provider_publication_interval is None,
        }
        &&& match self.put_record_job {
            Some(job) => {
                &&& job.local_id == id
                &&& job.interval == (match config.record_replication_interval {
                    Some(interval) => interval,
                    None => config.record_publication_interval->0,
                })
                &&& job.publish_interval == config.record_publication_interval
                &&& job.record_ttl == config.record_ttl
                &&& job.skipped@.len() == 0
                &&& job.ready@.len() == 0
                &&& config.record_replication_interval is Some
                    || config.record_publication_interval is Some
            },
            None => config.record_replication_interval is None
                && config.record_publication_interval is None,
        }
    }

    /// The behaviour of a peer with the default configuration.
    pub fn new(id: PeerId, store: TStore) -> (r: Self)
        ensures
            r.wf(),
            exists|config: Config| config.is_default() && r.is_new(id, store, config),
    {
        let config = Config::default();
        Self::with_config(id, store, config)
    }

    /// The behaviour of a peer with the given configuration.
    pub fn with_config(id: PeerId, store: TStore, config: Config) -> (r: Self)
        ensures
            r.wf(),
            r.is_new(id, store, config),
    {
        let put_record_job = match config.record_replication_interval {
            Some(interval) => Some(
                PutRecordJob::new(
                    id,
                    interval,
                    config.record_publication_interval,
                    config.record_ttl,
                ),
            ),
            None => match config.record_publication_interval {
                Some(interval) => Some(
                    PutRecordJob::new(
                        id,
                        interval,
                        config.record_publication_interval,
                        config.record_ttl,
                    ),
                ),
                None => None,
            },
        };
        let add_provider_job = match config.provider_publication_interval {
            Some(interval) => Some(AddProviderJob::new(interval)),
            None => None,
        };
        Behaviour {
            store,
            caching: config.caching,
            kbuckets: KBucketsTable::new(id, config.kbucket_config),
            kbucket_inserts: config.kbucket_inserts,
            protocol_config: config.protocol_config,
            record_filtering: config.record_filtering,
            queued_events: VecDeque::new(),
            listen_addresses: no_listen_addresses(),
            queries: QueryPool::new(config.query_config),
            connected_peers: no_peers(),
            add_provider_job,
            put_record_job,
            record_ttl: config.record_ttl,
            provider_record_ttl: config.provider_record_ttl,
            external_addresses: no_external_addresses(),
            local_peer_id: id,
            connections: Assoc::new(),
            mode: Mode::Client,
            auto_mode: true,
            no_events_waker: false,
            bootstrap_status: Status::new(
                config.periodic_bootstrap_interval,
                config.automatic_bootstrap_throttle,
            ),
            clock: read_clock(),
        }
    }

    /// The names of the protocol.
    pub fn protocol_names(&self) -> (r: &Vec<StreamProtocol>)
        ensures
            *r == self.protocol_config.protocol_names,
    {
        &self.protocol_config.protocol_names
    }

    /// Whether the node serves requests.
    pub fn mode(&self) -> (r: Mode)
        ensures
            r == self.mode,
    {
        self.mode
    }

    /// The store of records.
    pub fn store_mut(&mut self) -> (r: &mut TStore)
        ensures
            *r == old(self).store,
            *final(self) == (Behaviour { store: *final(r), ..*old(self) }),
    {
        &mut self.store
    }

    /// The present: the time that has passed since the behaviour was made, as a reading of
    /// the clock shows it.
    pub fn now(&self) -> (r: Moment)
        ensures
            is_present(self.clock, r),
            r.nanos <= MAX_ELAPSED,
    {
        let present = present_reading();
        time_between(&self.clock, &present)
    }
}

} // verus!
