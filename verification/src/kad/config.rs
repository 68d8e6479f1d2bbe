//! Configuration of the Kademlia behaviour.

use libp2p_swarm::StreamProtocol;
use vstd::prelude::*;

use crate::net::protocol_text;
use crate::net::stream_protocol;
use crate::nonzero::NonZeroUsize;
use crate::time::Duration;

verus! {

/// The number of closest peers that matter to a key, and the size of a bucket, unless it is
/// configured otherwise.
pub const K_VALUE: usize = 20;

/// The number of peers that an iterative query waits for in parallel, unless it is configured
/// otherwise.
pub const ALPHA_VALUE: usize = 3;

/// The number of bytes that a packet may have, unless it is configured otherwise.
pub const DEFAULT_MAX_PACKET_SIZE: usize = 16_384;

/// The name of the protocol.
pub const DEFAULT_PROTO_NAME: &'static str = "/ipfs/kad/1.0.0";

/// The strategies for the insertion of peers into the routing table.
#[derive(Clone, Copy, Debug, PartialEq, Eq, Structural)]
pub enum BucketInserts {
    /// A peer that was dialed is inserted when its connection is established, if there is a
    /// free slot in its bucket. If there is only a free pending slot, it may be inserted
    /// later, when a disconnected peer is evicted.
    OnConnected,
    /// Peers are inserted only on request.
    Manual,
}

/// The strategies for the acceptance of incoming records.
#[derive(Clone, Copy, Debug, PartialEq, Eq, Structural)]
pub enum StoreInserts {
    /// A record that is received is stored.
    Unfiltered,
    /// A record that is received is handed to the application, which may store it.
    FilterBoth,
}

/// The configuration of caching after successful lookups.
#[derive(Clone, Copy, Debug)]
pub enum Caching {
    /// The peers that do not return a record are not tracked.
    Disabled,
    /// Up to `max_peers` peers that do not return a record, and are closest to its key, are
    /// tracked and returned.
    Enabled {
        /// The most peers to be tracked.
        max_peers: u16,
    },
}

impl Caching {
    /// The most peers that are tracked.
    pub open spec fn most_candidates(&self) -> nat {
        match self {
            Caching::Disabled => 0,
            Caching::Enabled { max_peers } => *max_peers as nat,
        }
    }
}

/// The configuration of the routing table.
#[derive(Clone, Copy, Debug)]
pub struct KBucketConfig {
    /// The number of peers that a bucket can hold.
    pub bucket_size: NonZeroUsize,
    /// The time after which a pending peer may take the place of a disconnected one.
    pub pending_timeout: Duration,
}

/// The configuration of queries.
#[derive(Clone, Copy, Debug)]
pub struct QueryConfig {
    /// The time after which a query is given up.
    pub timeout: Duration,
    /// To how many closest peers a record is replicated.
    pub replication_factor: NonZeroUsize,
    /// How many peers an iterative query waits for in parallel.
    pub parallelism: NonZeroUsize,
    /// Whether iterative queries use disjoint paths.
    pub disjoint_query_paths: bool,
}

/// The configuration of the wire protocol.
#[derive(Debug)]
pub struct ProtocolConfig {
    /// The names of the protocol.
    pub protocol_names: Vec<StreamProtocol>,
    /// The number of bytes that a packet may have.
    pub max_packet_size: usize,
}

/// The configuration of the Kademlia behaviour.
#[derive(Debug)]
pub struct Config {
    /// The configuration of the routing table.
    pub kbucket_config: KBucketConfig,
    /// The configuration of queries.
    pub query_config: QueryConfig,
    /// The configuration of the wire protocol.
    pub protocol_config: ProtocolConfig,
    /// The time to live of records.
    pub record_ttl: Option<Duration>,
    /// The interval at which records are replicated.
    pub record_replication_interval: Option<Duration>,
    /// The interval at which records are published.
    pub record_publication_interval: Option<Duration>,
    /// The strategy for the acceptance of records.
    pub record_filtering: StoreInserts,
    /// The time to live of provider records.
    pub provider_record_ttl: Option<Duration>,
    /// The interval at which provider records are published.
    pub provider_publication_interval: Option<Duration>,
    /// The strategy for the insertion of peers.
    pub kbucket_inserts: BucketInserts,
    /// The configuration of caching.
    pub caching: Caching,
    /// The interval at which the node bootstraps.
    pub periodic_bootstrap_interval: Option<Duration>,
    /// The time between the insertion of a peer and the bootstrap that it triggers.
    pub automatic_bootstrap_throttle: Option<Duration>,
}

/// A span of `hours` hours.
pub open spec fn hours(hours: int) -> Duration {
    Duration { secs: (hours * 3600) as u64, nanos: 0 }
}

/// The value of [`K_VALUE`] as a positive number.
pub fn k_value() -> (r: NonZeroUsize)
    ensures
        r@ == K_VALUE,
{
    match NonZeroUsize::new(K_VALUE) {
        Some(k) => k,
        None => NonZeroUsize::one(),
    }
}

impl Default for Config {
    fn default() -> (r: Self)
        ensures
            r.is_default(),
            protocol_text(r.protocol_config.protocol_names@[0]) == DEFAULT_PROTO_NAME@,
    {
        proof {
            reveal_strlit("/ipfs/kad/1.0.0");
        }
        Self::new(stream_protocol(DEFAULT_PROTO_NAME))
    }
}

impl Config {
    /// Whether every setting but the protocol's name has its default value.
    pub open spec fn is_default(&self) -> bool {
        &&& self.kbucket_config.bucket_size@ == K_VALUE
        &&& self.kbucket_config.pending_timeout == (Duration { secs: 60, nanos: 0 })
        &&& self.query_config.timeout == (Duration { secs: 60, nanos: 0 })
        &&& self.query_config.replication_factor@ == K_VALUE
        &&& self.query_config.parallelism@ == ALPHA_VALUE
        &&& !self.query_config.disjoint_query_paths
        &&& self.protocol_config.protocol_names@.len() == 1
        &&& self.protocol_config.max_packet_size == DEFAULT_MAX_PACKET_SIZE
        &&& self.record_ttl == Some(hours(36))
        &&& self.record_replication_interval == Some(hours(1))
        &&& self.record_publication_interval == Some(hours(24))
        &&& self.record_filtering == StoreInserts::Unfiltered
        &&& self.provider_record_ttl == Some(hours(48))
        &&& self.provider_publication_interval == Some(hours(12))
        &&& self.kbucket_inserts == BucketInserts::OnConnected
        &&& self.caching == (Caching::Enabled { max_peers: 1 })
        &&& self.periodic_bootstrap_interval == Some(Duration { secs: 300, nanos: 0 })
        &&& self.automatic_bootstrap_throttle matches Some(d) && d@ == 500_000_000
    }

    /// A configuration with the given protocol name, and defaults for everything else.
    pub fn new(protocol_name: StreamProtocol) -> (r: Self)
        ensures
            r.is_default(),
            r.protocol_config.protocol_names@ == seq![protocol_name],
    {
        let mut protocol_names: Vec<StreamProtocol> = Vec::new();
        protocol_names.push(protocol_name);
        assert(protocol_names@ =~= seq![protocol_name]);
        let parallelism = match NonZeroUsize::new(ALPHA_VALUE) {
            Some(a) => a,
            None => NonZeroUsize::one(),
        };
        Config {
            kbucket_config: KBucketConfig {
                bucket_size: k_value(),
                pending_timeout: Duration::from_secs(60),
            },
            query_config: QueryConfig {
                timeout: Duration::from_secs(60),
                replication_factor: k_value(),
                parallelism,
                disjoint_query_paths: false,
            },
            protocol_config: ProtocolConfig {
                protocol_names,
                max_packet_size: DEFAULT_MAX_PACKET_SIZE,
            },
            record_ttl: Some(Duration::from_secs(36 * 60 * 60)),
            record_replication_interval: Some(Duration::from_secs(60 * 60)),
            record_publication_interval: Some(Duration::from_secs(24 * 60 * 60)),
            record_filtering: StoreInserts::Unfiltered,
            provider_record_ttl: Some(Duration::from_secs(48 * 60 * 60)),
            provider_publication_interval: Some(Duration::from_secs(12 * 60 * 60)),
            kbucket_inserts: BucketInserts::OnConnected,
            caching: Caching::Enabled { max_peers: 1 },
            periodic_bootstrap_interval: Some(Duration::from_secs(5 * 60)),
            automatic_bootstrap_throttle: Some(Duration::from_millis(500)),
        }
    }

    /// Sets the time after which a query is given up. The default is 60 seconds.
    pub fn set_query_timeout(&mut self, timeout: Duration) -> (r: &mut Self)
        ensures
            *r == (Config {
                query_config: QueryConfig { timeout, ..old(self).query_config },
                ..*old(self)
            }),
            *final(self) == *final(r),
    {
        self.query_config.timeout = timeout;
        self
    }

    /// Sets to how many closest peers a record is replicated. The default is [`K_VALUE`].
    pub fn set_replication_factor(&mut self, replication_factor: NonZeroUsize) -> (r: &mut Self)
        ensures
            *r == (Config {
                query_config: QueryConfig { replication_factor, ..old(self).query_config },
                ..*old(self)
            }),
            *final(self) == *final(r),
    {
        self.query_config.replication_factor = replication_factor;
        self
    }

    /// Sets how many peers an iterative query waits for in parallel. The default is
    /// [`ALPHA_VALUE`].
    pub fn set_parallelism(&mut self, parallelism: NonZeroUsize) -> (r: &mut Self)
        ensures
            *r == (Config {
                query_config: QueryConfig { parallelism, ..old(self).query_config },
                ..*old(self)
            }),
            *final(self) == *final(r),
    {
        self.query_config.parallelism = parallelism;
        self
    }

    /// Sets whether iterative queries use disjoint paths, as many as the parallelism says.
    pub fn disjoint_query_paths(&mut self, enabled: bool) -> (r: &mut Self)
        ensures
            *r == (Config {
                query_config: QueryConfig { disjoint_query_paths: enabled, ..old(self).query_config },
                ..*old(self)
            }),
            *final(self) == *final(r),
    {
        self.query_config.disjoint_query_paths = enabled;
        self
    }

    /// Sets the time to live of records. The default is 36 hours.
    ///
    /// `None` means that records never expire, unless they say themselves when they do.
    pub fn set_record_ttl(&mut self, record_ttl: Option<Duration>) -> (r: &mut Self)
        ensures
            *r == (Config { record_ttl, ..*old(self) }),
            *final(self) == *final(r),
    {
        self.record_ttl = record_ttl;
        self
    }

    /// Sets the strategy for the acceptance of records. The default is
    /// [`StoreInserts::Unfiltered`].
    pub fn set_record_filtering(&mut self, filtering: StoreInserts) -> (r: &mut Self)
        ensures
            *r == (Config { record_filtering: filtering, ..*old(self) }),
            *final(self) == *final(r),
    {
        self.record_filtering = filtering;
        self
    }

    /// Sets the interval at which records are replicated. The default is 1 hour.
    ///
    /// `None` means that they never are.
    pub fn set_replication_interval(&mut self, interval: Option<Duration>) -> (r: &mut Self)
        ensures
            *r == (Config { record_replication_interval: interval, ..*old(self) }),
            *final(self) == *final(r),
    {
        self.record_replication_interval = interval;
        self
    }

    /// Sets the interval at which records are published. The default is 24 hours.
    ///
    /// `None` means that they are not published again.
    pub fn set_publication_interval(&mut self, interval: Option<Duration>) -> (r: &mut Self)
        ensures
            *r == (Config { record_publication_interval: interval, ..*old(self) }),
            *final(self) == *final(r),
    {
        self.record_publication_interval = interval;
        self
    }

    /// Sets the time to live of provider records. The default is 48 hours.
    ///
    /// `None` means that provider records never expire.
    pub fn set_provider_record_ttl(&mut self, ttl: Option<Duration>) -> (r: &mut Self)
        ensures
            *r == (Config { provider_record_ttl: ttl, ..*old(self) }),
            *final(self) == *final(r),
    {
        self.provider_record_ttl = ttl;
        self
    }

    /// Sets the interval at which provider records are published. The default is 12 hours.
    ///
    /// `None` means that they are not published again.
    pub fn set_provider_publication_interval(&mut self, interval: Option<Duration>) -> (r: &mut Self)
        ensures
            *r == (Config { provider_publication_interval: interval, ..*old(self) }),
            *final(self) == *final(r),
    {
        self.provider_publication_interval = interval;
        self
    }

    /// Sets the number of bytes that a packet may have.
    pub fn set_max_packet_size(&mut self, size: usize) -> (r: &mut Self)
        ensures
            *r == (Config {
                protocol_config: ProtocolConfig { max_packet_size: size, ..old(self).protocol_config },
                ..*old(self)
            }),
            *final(self) == *final(r),
    {
        self.protocol_config.max_packet_size = size;
        self
    }

    /// Sets the strategy for the insertion of peers into the routing table.
    pub fn set_kbucket_inserts(&mut self, inserts: BucketInserts) -> (r: &mut Self)
        ensures
            *r == (Config { kbucket_inserts: inserts, ..*old(self) }),
            *final(self) == *final(r),
    {
        self.kbucket_inserts = inserts;
        self
    }

    /// Sets the caching after successful lookups. The default is [`Caching::Enabled`] with a
    /// `max_peers` of 1.
    pub fn set_caching(&mut self, c: Caching) -> (r: &mut Self)
        ensures
            *r == (Config { caching: c, ..*old(self) }),
            *final(self) == *final(r),
    {
        self.caching = c;
        self
    }

    /// Sets the interval at which the node bootstraps. The default is 5 minutes.
    ///
    /// `None` disables periodic bootstraps.
    pub fn set_periodic_bootstrap_interval(&mut self, interval: Option<Duration>) -> (r: &mut Self)
        ensures
            *r == (Config { periodic_bootstrap_interval: interval, ..*old(self) }),
            *final(self) == *final(r),
    {
        self.periodic_bootstrap_interval = interval;
        self
    }

    /// Sets the number of peers that a bucket can hold. The default is [`K_VALUE`].
    pub fn set_kbucket_size(&mut self, size: NonZeroUsize) -> (r: &mut Self)
        ensures
            *r == (Config {
                kbucket_config: KBucketConfig { bucket_size: size, ..old(self).kbucket_config },
                ..*old(self)
            }),
            *final(self) == *final(r),
    {
        self.kbucket_config.bucket_size = size;
        self
    }

    /// Sets the time after which a pending peer may take the place of a disconnected one. The
    /// default is 60 seconds.
    pub fn set_kbucket_pending_timeout(&mut self, timeout: Duration) -> (r: &mut Self)
        ensures
            *r == (Config {
                kbucket_config: KBucketConfig { pending_timeout: timeout, ..old(self).kbucket_config },
                ..*old(self)
            }),
            *final(self) == *final(r),
    {
        self.kbucket_config.pending_timeout = timeout;
        self
    }

    /// Sets the time between the insertion of a peer and the bootstrap that it triggers. The
    /// default is 500 milliseconds.
    ///
    /// `None` disables automatic bootstraps.
    pub fn set_automatic_bootstrap_throttle(&mut self, duration: Option<Duration>) -> (r: &mut Self)
        ensures
            *r == (Config { automatic_bootstrap_throttle: duration, ..*old(self) }),
            *final(self) == *final(r),
    {
        self.automatic_bootstrap_throttle = duration;
        self
    }
}

} // verus!
